//! The board and the two legality regimes: free placement on the centre
//! square during the opening, and flanking afterwards.

use vstd::prelude::*;

verus! {

/// Eight rows of eight cells: 0 is empty, 1 and 2 are the two players' pieces.
pub type Board = [[i8; 8]; 8];

pub open spec fn valid_player(player: i8) -> bool {
    player == 1 || player == 2
}

pub open spec fn opponent_of(player: i8) -> int {
    3 - player
}

pub open spec fn in_bounds(r: int, c: int) -> bool {
    0 <= r < 8 && 0 <= c < 8
}

/// No cell of the board holds a piece.
pub open spec fn all_empty(b: Board) -> bool {
    forall|r: int, c: int| in_bounds(r, c) ==> #[trigger] b[r][c] == 0
}

/// The board before the first piece is placed.
pub fn empty_board() -> (board: Board)
    ensures
        all_empty(board),
{
    [[0i8; 8]; 8]
}

/// What lies `k` steps from `(r, c)` in direction `(dr, dc)`: the cell's
/// value, or `None` beyond the edge.
pub open spec fn ray(b: Board, r: int, c: int, dr: int, dc: int, k: int) -> Option<int> {
    let x = r + k * dr;
    let y = c + k * dc;
    if in_bounds(x, y) {
        Some(b[x][y] as int)
    } else {
        None
    }
}

/// Steps `1..=n` from `(r, c)` hold the opponent's pieces and step `n + 1`
/// holds one of the player's own.
pub open spec fn brackets(b: Board, player: i8, r: int, c: int, dr: int, dc: int, n: int) -> bool {
    &&& n >= 1
    &&& forall|k: int| 1 <= k <= n ==> #[trigger] ray(b, r, c, dr, dc, k) == Some(opponent_of(player))
    &&& ray(b, r, c, dr, dc, n + 1) == Some(player as int)
}

/// A piece placed on `(r, c)` would flank a run of the opponent's pieces in
/// direction `(dr, dc)`.
pub open spec fn flanks(b: Board, player: i8, r: int, c: int, dr: int, dc: int) -> bool {
    exists|n: int| brackets(b, player, r, c, dr, dc, n)
}

/// The flanking rule: the cell is on the board, empty, and flanks in at least
/// one of the eight compass directions.
pub open spec fn is_legal(b: Board, player: i8, r: int, c: int) -> bool {
    &&& in_bounds(r, c)
    &&& b[r][c] == 0
    &&& (flanks(b, player, r, c, -1, -1) || flanks(b, player, r, c, -1, 0)
        || flanks(b, player, r, c, -1, 1) || flanks(b, player, r, c, 0, -1)
        || flanks(b, player, r, c, 0, 1) || flanks(b, player, r, c, 1, -1)
        || flanks(b, player, r, c, 1, 0) || flanks(b, player, r, c, 1, 1))
}

/// The legal cells among the first `n` cells in row-major order, in that order.
pub open spec fn legal_prefix(b: Board, player: i8, n: nat) -> Seq<(i8, i8)>
    decreases n,
{
    if n == 0 {
        Seq::empty()
    } else {
        let i = (n - 1) as int;
        let before = legal_prefix(b, player, (n - 1) as nat);
        if is_legal(b, player, i / 8, i % 8) {
            before.push(((i / 8) as i8, (i % 8) as i8))
        } else {
            before
        }
    }
}

/// Every legal cell of the board, in row-major order.
pub open spec fn legal_cells(b: Board, player: i8) -> Seq<(i8, i8)> {
    legal_prefix(b, player, 64)
}

/// The other player.
pub fn opponent(player: i8) -> (other: i8)
    requires
        valid_player(player),
    ensures
        other == 3 - player,
        other == opponent_of(player),
        valid_player(other),
        other != player,
{
    3 - player
}

proof fn lemma_unit_step(d: int, k: int)
    requires
        -1 <= d <= 1,
    ensures
        k * d == (if d == 0 { 0 } else if d == 1 { k } else { -k }),
        (k + 1) * d == k * d + d,
{
    assert(k * d == (if d == 0 { 0 } else if d == 1 { k } else { -k })) by (nonlinear_arith)
        requires -1 <= d <= 1;
    assert((k + 1) * d == k * d + d) by (nonlinear_arith);
}

/// Walks from `(r, c)` in one direction and says whether the player flanks there.
pub fn flanks_toward(board: &Board, player: i8, r: usize, c: usize, dr: i8, dc: i8) -> (found: bool)
    requires
        valid_player(player),
        r < 8,
        c < 8,
        -1 <= dr <= 1,
        -1 <= dc <= 1,
        dr != 0 || dc != 0,
    ensures
        found == flanks(*board, player, r as int, c as int, dr as int, dc as int),
{
    let other: i8 = opponent(player);
    let mut k: i8 = 1;
    let mut x: i8 = r as i8 + dr;
    let mut y: i8 = c as i8 + dc;
    proof {
        lemma_unit_step(dr as int, 1);
        lemma_unit_step(dc as int, 1);
    }
    while 0 <= x && x < 8 && 0 <= y && y < 8
        invariant
            valid_player(player),
            other == 3 - player,
            r < 8,
            c < 8,
            -1 <= dr <= 1,
            -1 <= dc <= 1,
            dr != 0 || dc != 0,
            1 <= k <= 8,
            x == r + k * dr,
            y == c + k * dc,
            forall|j: int| 1 <= j < k ==> #[trigger] ray(*board, r as int, c as int, dr as int, dc as int, j) == Some(other as int),
        decreases 8 - k,
    {
        proof {
            lemma_unit_step(dr as int, k as int);
            lemma_unit_step(dc as int, k as int);
        }
        let current: i8 = board[x as usize][y as usize];
        assert(ray(*board, r as int, c as int, dr as int, dc as int, k as int) == Some(current as int));
        if current == other {
            k = k + 1;
            x = x + dr;
            y = y + dc;
        } else if current == player {
            proof {
                if k >= 2 {
                    assert(brackets(*board, player, r as int, c as int, dr as int, dc as int, k - 1));
                } else {
                    assert forall|n: int| !brackets(*board, player, r as int, c as int, dr as int, dc as int, n) by {
                        if n >= 1 {
                            assert(ray(*board, r as int, c as int, dr as int, dc as int, 1) != Some(other as int));
                        }
                    }
                }
            }
            return k >= 2;
        } else {
            proof {
                assert forall|n: int| !brackets(*board, player, r as int, c as int, dr as int, dc as int, n) by {
                    if n >= k {
                        assert(ray(*board, r as int, c as int, dr as int, dc as int, k as int) != Some(other as int));
                    }
                }
            }
            return false;
        }
    }
    proof {
        assert forall|n: int| !brackets(*board, player, r as int, c as int, dr as int, dc as int, n) by {
            if n >= k {
                assert(ray(*board, r as int, c as int, dr as int, dc as int, k as int) != Some(other as int));
            }
        }
    }
    false
}

/// Whether the flanking rule lets the player place a piece on `(r, c)`.
pub fn is_legal_move(board: &Board, player: i8, r: usize, c: usize) -> (legal: bool)
    requires
        valid_player(player),
        r < 8,
        c < 8,
    ensures
        legal == is_legal(*board, player, r as int, c as int),
{
    if board[r][c] != 0 {
        return false;
    }
    flanks_toward(board, player, r, c, -1, -1) || flanks_toward(board, player, r, c, -1, 0)
        || flanks_toward(board, player, r, c, -1, 1) || flanks_toward(board, player, r, c, 0, -1)
        || flanks_toward(board, player, r, c, 0, 1) || flanks_toward(board, player, r, c, 1, -1)
        || flanks_toward(board, player, r, c, 1, 0) || flanks_toward(board, player, r, c, 1, 1)
}

/// Standard legality: every cell where the player may place a piece under
/// the flanking rule, in row-major order. The board is only read.
pub fn legal_moves(board: &Board, player: i8) -> (moves: Vec<(i8, i8)>)
    requires
        valid_player(player),
    ensures
        moves@ == legal_cells(*board, player),
{
    let mut moves: Vec<(i8, i8)> = Vec::with_capacity(24);
    let mut r: usize = 0;
    while r < 8
        invariant
            valid_player(player),
            r <= 8,
            moves@ == legal_prefix(*board, player, (8 * r) as nat),
        decreases 8 - r,
    {
        let mut c: usize = 0;
        while c < 8
            invariant
                valid_player(player),
                r < 8,
                c <= 8,
                moves@ == legal_prefix(*board, player, (8 * r + c) as nat),
            decreases 8 - c,
        {
            if is_legal_move(board, player, r, c) {
                moves.push((r as i8, c as i8));
            }
            c = c + 1;
        }
        r = r + 1;
    }
    moves
}

/// The centre cells that are empty, in the fixed order (3,3), (3,4), (4,3), (4,4).
pub open spec fn opening_cells(b: Board) -> Seq<(i8, i8)> {
    let none = Seq::<(i8, i8)>::empty();
    (if b[3][3] == 0 { seq![(3i8, 3i8)] } else { none })
        + (if b[3][4] == 0 { seq![(3i8, 4i8)] } else { none })
        + (if b[4][3] == 0 { seq![(4i8, 3i8)] } else { none })
        + (if b[4][4] == 0 { seq![(4i8, 4i8)] } else { none })
}

/// Opening legality: the free centre cells, whoever moves.
pub fn first_n_moves(board: &Board) -> (moves: Vec<(i8, i8)>)
    ensures
        moves@ == opening_cells(*board),
{
    let mut moves: Vec<(i8, i8)> = Vec::with_capacity(4);
    if board[3][3] == 0 {
        moves.push((3, 3));
    }
    if board[3][4] == 0 {
        moves.push((3, 4));
    }
    if board[4][3] == 0 {
        moves.push((4, 3));
    }
    if board[4][4] == 0 {
        moves.push((4, 4));
    }
    assert(moves@ =~= opening_cells(*board));
    moves
}

proof fn lemma_prefix_members(b: Board, player: i8, n: nat, m: (i8, i8))
    requires
        n <= 64,
    ensures
        legal_prefix(b, player, n).contains(m) <==> (is_legal(b, player, m.0 as int, m.1 as int)
            && 8 * m.0 + m.1 < n),
    decreases n,
{
    if n > 0 {
        let i = (n - 1) as int;
        let before = legal_prefix(b, player, (n - 1) as nat);
        lemma_prefix_members(b, player, (n - 1) as nat, m);
        if is_legal(b, player, i / 8, i % 8) {
            let cell = ((i / 8) as i8, (i % 8) as i8);
            let all = before.push(cell);
            if all.contains(m) {
                let j = choose|j: int| 0 <= j < all.len() && all[j] == m;
                if j < before.len() {
                    assert(before[j] == m);
                }
            }
            if before.contains(m) {
                let j = choose|j: int| 0 <= j < before.len() && before[j] == m;
                assert(all[j] == m);
            }
            if m == cell {
                assert(all[all.len() - 1] == m);
            }
        }
    }
}

/// A cell is among the legal moves exactly when it is on the board, empty,
/// and a piece placed there flanks in at least one of the eight directions.
pub proof fn lemma_legal_cells_are_the_flanking_cells(b: Board, player: i8, m: (i8, i8))
    ensures
        legal_cells(b, player).contains(m) <==> is_legal(b, player, m.0 as int, m.1 as int),
{
    lemma_prefix_members(b, player, 64, m);
}

/// Every legal move is an empty cell of the board.
pub proof fn lemma_legal_cells_are_empty(b: Board, player: i8, i: int)
    requires
        0 <= i < legal_cells(b, player).len(),
    ensures
        in_bounds(legal_cells(b, player)[i].0 as int, legal_cells(b, player)[i].1 as int),
        b[legal_cells(b, player)[i].0 as int][legal_cells(b, player)[i].1 as int] == 0,
{
    let m = legal_cells(b, player)[i];
    assert(legal_cells(b, player).contains(m));
    lemma_legal_cells_are_the_flanking_cells(b, player, m);
}

proof fn lemma_prefix_ascending(b: Board, player: i8, n: nat, i: int, j: int)
    requires
        n <= 64,
        0 <= i < j < legal_prefix(b, player, n).len(),
    ensures
        8 * legal_prefix(b, player, n)[i].0 + legal_prefix(b, player, n)[i].1 < 8 * legal_prefix(b, player, n)[j].0
            + legal_prefix(b, player, n)[j].1,
    decreases n,
{
    if n > 0 {
        let k = (n - 1) as int;
        let before = legal_prefix(b, player, (n - 1) as nat);
        if j < before.len() {
            lemma_prefix_ascending(b, player, (n - 1) as nat, i, j);
        } else {
            assert(before.contains(before[i]));
            lemma_prefix_members(b, player, (n - 1) as nat, before[i]);
        }
    }
}

/// The legal moves come in row-major order, so none comes twice.
pub proof fn lemma_legal_cells_ascend(b: Board, player: i8, i: int, j: int)
    requires
        0 <= i < j < legal_cells(b, player).len(),
    ensures
        8 * legal_cells(b, player)[i].0 + legal_cells(b, player)[i].1 < 8 * legal_cells(b, player)[j].0
            + legal_cells(b, player)[j].1,
        legal_cells(b, player)[i] != legal_cells(b, player)[j],
{
    lemma_prefix_ascending(b, player, 64, i, j);
}

proof fn lemma_prefix_same(a: Board, b: Board, player: i8, n: nat)
    requires
        n <= 64,
        forall|r: int, c: int| in_bounds(r, c) ==> a[r][c] == b[r][c],
    ensures
        legal_prefix(a, player, n) == legal_prefix(b, player, n),
    decreases n,
{
    if n > 0 {
        let i = (n - 1) as int;
        lemma_prefix_same(a, b, player, (n - 1) as nat);
        lemma_legal_same(a, b, player, i / 8, i % 8);
    }
}

proof fn lemma_flanks_same(a: Board, b: Board, player: i8, r: int, c: int, dr: int, dc: int)
    requires
        forall|r: int, c: int| in_bounds(r, c) ==> a[r][c] == b[r][c],
    ensures
        flanks(a, player, r, c, dr, dc) == flanks(b, player, r, c, dr, dc),
{
    assert forall|k: int| ray(a, r, c, dr, dc, k) == ray(b, r, c, dr, dc, k) by {}
    if flanks(a, player, r, c, dr, dc) {
        let n = choose|n: int| brackets(a, player, r, c, dr, dc, n);
        assert(brackets(b, player, r, c, dr, dc, n));
    }
    if flanks(b, player, r, c, dr, dc) {
        let n = choose|n: int| brackets(b, player, r, c, dr, dc, n);
        assert(brackets(a, player, r, c, dr, dc, n));
    }
}

proof fn lemma_legal_same(a: Board, b: Board, player: i8, r: int, c: int)
    requires
        forall|r: int, c: int| in_bounds(r, c) ==> a[r][c] == b[r][c],
    ensures
        is_legal(a, player, r, c) == is_legal(b, player, r, c),
{
    lemma_flanks_same(a, b, player, r, c, -1, -1);
    lemma_flanks_same(a, b, player, r, c, -1, 0);
    lemma_flanks_same(a, b, player, r, c, -1, 1);
    lemma_flanks_same(a, b, player, r, c, 0, -1);
    lemma_flanks_same(a, b, player, r, c, 0, 1);
    lemma_flanks_same(a, b, player, r, c, 1, -1);
    lemma_flanks_same(a, b, player, r, c, 1, 0);
    lemma_flanks_same(a, b, player, r, c, 1, 1);
}

/// The legal moves depend on nothing but the cells and the player: two
/// boards that agree cell by cell have the same legal moves, in the same order.
pub proof fn lemma_legal_cells_determined_by_cells(a: Board, b: Board, player: i8)
    requires
        forall|r: int, c: int| in_bounds(r, c) ==> a[r][c] == b[r][c],
    ensures
        legal_cells(a, player) == legal_cells(b, player),
{
    lemma_prefix_same(a, b, player, 64);
}

} // verus!
