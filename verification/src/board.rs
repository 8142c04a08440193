//! The 3x3 board and its evaluation.
//!
//! A board is modelled as a sequence of nine [`CellOwner`] values, laid out
//! row by row. Every contract of this module speaks of that sequence.

use vstd::prelude::*;

verus! {

/// Who holds a cell. `Tie` is never stored in a cell: it only names the
/// outcome of a full board without a complete line.
#[derive(PartialEq, Eq, Clone, Copy, Debug, Structural)]
pub enum CellOwner {
    Empty,
    PlayerA,
    PlayerB,
    Tie,
}

impl CellOwner {
    /// The other player; what is no player has no opponent.
    pub open spec fn other(self) -> CellOwner {
        match self {
            CellOwner::PlayerA => CellOwner::PlayerB,
            CellOwner::PlayerB => CellOwner::PlayerA,
            _ => CellOwner::Empty,
        }
    }

    /// `PlayerA` or `PlayerB`.
    pub open spec fn is_player(self) -> bool {
        self is PlayerA || self is PlayerB
    }

    /// The other player; `Empty` for what is no player.
    pub fn opponent(&self) -> (r: Self)
        ensures
            r == self.other(),
    {
        match self {
            CellOwner::PlayerA => CellOwner::PlayerB,
            CellOwner::PlayerB => CellOwner::PlayerA,
            _ => CellOwner::Empty,
        }
    }
}

/// Nine cells, none of them `Tie`.
pub open spec fn valid_cells(cells: Seq<CellOwner>) -> bool {
    &&& cells.len() == 9
    &&& forall|i: int| 0 <= i < 9 ==> !(#[trigger] cells[i] is Tie)
}

/// The board on which nobody has moved.
pub open spec fn empty_cells() -> Seq<CellOwner> {
    Seq::new(9, |i: int| CellOwner::Empty)
}

/// How many cells `owner` holds.
pub open spec fn count_of(cells: Seq<CellOwner>, owner: CellOwner) -> nat
    decreases cells.len(),
{
    if cells.len() == 0 {
        0
    } else {
        count_of(cells.drop_last(), owner) + if cells.last() == owner {
            1nat
        } else {
            0nat
        }
    }
}

/// The two players have moved in turn: neither is two or more cells ahead.
pub open spec fn balanced(cells: Seq<CellOwner>) -> bool {
    -1 <= count_of(cells, CellOwner::PlayerA) - count_of(cells, CellOwner::PlayerB) <= 1
}

/// A cell is free.
pub open spec fn has_empty(cells: Seq<CellOwner>) -> bool {
    exists|i: int| 0 <= i < cells.len() && #[trigger] cells[i] is Empty
}

/// `owner` holds the three cells `a`, `b` and `c`.
pub open spec fn owns_line(
    cells: Seq<CellOwner>,
    owner: CellOwner,
    a: int,
    b: int,
    c: int,
) -> bool {
    cells[a] == owner && cells[b] == owner && cells[c] == owner
}

pub open spec fn owns_row(cells: Seq<CellOwner>, owner: CellOwner) -> bool {
    ||| owns_line(cells, owner, 0, 1, 2)
    ||| owns_line(cells, owner, 3, 4, 5)
    ||| owns_line(cells, owner, 6, 7, 8)
}

pub open spec fn owns_column(cells: Seq<CellOwner>, owner: CellOwner) -> bool {
    ||| owns_line(cells, owner, 0, 3, 6)
    ||| owns_line(cells, owner, 1, 4, 7)
    ||| owns_line(cells, owner, 2, 5, 8)
}

pub open spec fn owns_diagonal(cells: Seq<CellOwner>, owner: CellOwner) -> bool {
    owns_line(cells, owner, 0, 4, 8)
}

pub open spec fn owns_antidiagonal(cells: Seq<CellOwner>, owner: CellOwner) -> bool {
    owns_line(cells, owner, 2, 4, 6)
}

/// `owner` holds all three cells of one of the eight lines.
pub open spec fn owns_any_line(cells: Seq<CellOwner>, owner: CellOwner) -> bool {
    ||| owns_row(cells, owner)
    ||| owns_column(cells, owner)
    ||| owns_diagonal(cells, owner)
    ||| owns_antidiagonal(cells, owner)
}

/// The outcome of a board: the player who holds a complete line, `PlayerA`
/// where both players hold one. Without a complete line the board is
/// undecided (`Empty`) while a cell is free, and a `Tie` once none is.
pub open spec fn winner_of(cells: Seq<CellOwner>) -> CellOwner {
    if owns_any_line(cells, CellOwner::PlayerA) {
        CellOwner::PlayerA
    } else if owns_any_line(cells, CellOwner::PlayerB) {
        CellOwner::PlayerB
    } else if has_empty(cells) {
        CellOwner::Empty
    } else {
        CellOwner::Tie
    }
}

/// The outcome of one kind of line: `PlayerA` is looked for before `PlayerB`.
spec fn first_of(a_has: bool, b_has: bool) -> CellOwner {
    if a_has {
        CellOwner::PlayerA
    } else if b_has {
        CellOwner::PlayerB
    } else {
        CellOwner::Empty
    }
}

spec fn row_owner(cells: Seq<CellOwner>) -> CellOwner {
    first_of(owns_row(cells, CellOwner::PlayerA), owns_row(cells, CellOwner::PlayerB))
}

spec fn column_owner(cells: Seq<CellOwner>) -> CellOwner {
    first_of(owns_column(cells, CellOwner::PlayerA), owns_column(cells, CellOwner::PlayerB))
}

spec fn diagonal_owner(cells: Seq<CellOwner>) -> CellOwner {
    first_of(owns_diagonal(cells, CellOwner::PlayerA), owns_diagonal(cells, CellOwner::PlayerB))
}

spec fn antidiagonal_owner(cells: Seq<CellOwner>) -> CellOwner {
    first_of(
        owns_antidiagonal(cells, CellOwner::PlayerA),
        owns_antidiagonal(cells, CellOwner::PlayerB),
    )
}

/// What a scan of the lines finds: rows are looked at first, then columns,
/// then the diagonal from cell 0, then the one from cell 2, and the first
/// kind of line that a player holds decides.
spec fn scan_of(cells: Seq<CellOwner>) -> CellOwner {
    if row_owner(cells).is_player() {
        row_owner(cells)
    } else if column_owner(cells).is_player() {
        column_owner(cells)
    } else if diagonal_owner(cells).is_player() {
        diagonal_owner(cells)
    } else if antidiagonal_owner(cells).is_player() {
        antidiagonal_owner(cells)
    } else {
        CellOwner::Empty
    }
}

/// Two lines of different kinds share a cell, so the order in which the
/// kinds are scanned never decides between the two players.
proof fn lemma_scan_finds_line_holder(cells: Seq<CellOwner>)
    requires
        cells.len() == 9,
    ensures
        scan_of(cells) == if owns_any_line(cells, CellOwner::PlayerA) {
            CellOwner::PlayerA
        } else if owns_any_line(cells, CellOwner::PlayerB) {
            CellOwner::PlayerB
        } else {
            CellOwner::Empty
        },
{
}

/// A claim of cell `index` for `owner` is taken: the cell exists and is free,
/// and `owner` is something a cell may hold.
pub open spec fn claimable(cells: Seq<CellOwner>, index: int, owner: CellOwner) -> bool {
    &&& 0 <= index < 9
    &&& cells[index] is Empty
    &&& !(owner is Tie)
}

/// The board after a claim: changed only where the claim is taken.
pub open spec fn claim(cells: Seq<CellOwner>, index: int, owner: CellOwner) -> Seq<CellOwner> {
    if claimable(cells, index, owner) {
        cells.update(index, owner)
    } else {
        cells
    }
}

/// Row (or column) number of a cell.
spec fn group_of(index: int, rows: bool) -> int {
    if rows {
        index / 3
    } else {
        index % 3
    }
}

/// Whether a cell lies on the diagonal from cell 0 (or on the one from cell 2).
spec fn on_diagonal(index: int, main: bool) -> bool {
    if main {
        index % 4 == 0
    } else {
        index != 0 && index != 8 && index % 2 == 0
    }
}

/// Cells of `owner` among the first `upto` that lie in row (or column) `group`.
spec fn group_tally(
    cells: Seq<CellOwner>,
    owner: CellOwner,
    rows: bool,
    group: int,
    upto: int,
) -> int
    decreases upto,
{
    if upto <= 0 {
        0
    } else {
        group_tally(cells, owner, rows, group, upto - 1) + if group_of(upto - 1, rows) == group
            && cells[upto - 1] == owner {
            1int
        } else {
            0int
        }
    }
}

/// Cells of `owner` among the first `upto` that lie on the chosen diagonal.
spec fn diagonal_tally(cells: Seq<CellOwner>, owner: CellOwner, main: bool, upto: int) -> int
    decreases upto,
{
    if upto <= 0 {
        0
    } else {
        diagonal_tally(cells, owner, main, upto - 1) + if on_diagonal(upto - 1, main) && cells[upto
            - 1] == owner {
            1int
        } else {
            0int
        }
    }
}

proof fn lemma_group_tally_full(cells: Seq<CellOwner>, owner: CellOwner, rows: bool)
    requires
        cells.len() == 9,
    ensures
        group_tally(cells, owner, rows, 0, 9) == 3 <==> if rows {
            owns_line(cells, owner, 0, 1, 2)
        } else {
            owns_line(cells, owner, 0, 3, 6)
        },
        group_tally(cells, owner, rows, 1, 9) == 3 <==> if rows {
            owns_line(cells, owner, 3, 4, 5)
        } else {
            owns_line(cells, owner, 1, 4, 7)
        },
        group_tally(cells, owner, rows, 2, 9) == 3 <==> if rows {
            owns_line(cells, owner, 6, 7, 8)
        } else {
            owns_line(cells, owner, 2, 5, 8)
        },
{
    reveal_with_fuel(group_tally, 10);
}

proof fn lemma_diagonal_tally_full(cells: Seq<CellOwner>, owner: CellOwner, main: bool)
    requires
        cells.len() == 9,
    ensures
        diagonal_tally(cells, owner, main, 9) == 3 <==> if main {
            owns_diagonal(cells, owner)
        } else {
            owns_antidiagonal(cells, owner)
        },
{
    reveal_with_fuel(diagonal_tally, 10);
}

proof fn lemma_count_of_step(cells: Seq<CellOwner>, owner: CellOwner, upto: int)
    requires
        0 <= upto < cells.len(),
    ensures
        count_of(cells.take(upto + 1), owner) == count_of(cells.take(upto), owner) + if cells[upto]
            == owner {
            1nat
        } else {
            0nat
        },
{
    assert(cells.take(upto + 1).drop_last() =~= cells.take(upto));
}

/// The player who makes move number `k`, counted from 0, when the players
/// take turns and `PlayerA` begins.
pub open spec fn mover_at(k: int) -> CellOwner {
    if k % 2 == 0 {
        CellOwner::PlayerA
    } else {
        CellOwner::PlayerB
    }
}

/// The board after the players have claimed the cells `moves` in turn.
pub open spec fn board_after(moves: Seq<int>) -> Seq<CellOwner>
    decreases moves.len(),
{
    if moves.len() == 0 {
        empty_cells()
    } else {
        claim(board_after(moves.drop_last()), moves.last(), mover_at(moves.len() - 1))
    }
}

/// Every move of `moves` claims a cell that is free when the move is made.
pub open spec fn all_taken(moves: Seq<int>) -> bool
    decreases moves.len(),
{
    moves.len() == 0 || (all_taken(moves.drop_last()) && claimable(
        board_after(moves.drop_last()),
        moves.last(),
        mover_at(moves.len() - 1),
    ))
}

/// Changing one cell moves one unit of the count from the old owner to the
/// new one.
pub proof fn lemma_count_after_update(
    cells: Seq<CellOwner>,
    index: int,
    owner: CellOwner,
    counted: CellOwner,
)
    requires
        0 <= index < cells.len(),
    ensures
        count_of(cells.update(index, owner), counted) == count_of(cells, counted) - (if cells[index]
            == counted {
            1int
        } else {
            0int
        }) + (if owner == counted {
            1int
        } else {
            0int
        }),
    decreases cells.len(),
{
    let updated = cells.update(index, owner);
    if index == cells.len() - 1 {
        assert(updated.drop_last() =~= cells.drop_last());
    } else {
        assert(updated.drop_last() =~= cells.drop_last().update(index, owner));
        lemma_count_after_update(cells.drop_last(), index, owner, counted);
    }
}

/// A cell is free exactly when the count of free cells is not zero.
pub proof fn lemma_free_cells_counted(cells: Seq<CellOwner>)
    ensures
        has_empty(cells) <==> count_of(cells, CellOwner::Empty) > 0,
    decreases cells.len(),
{
    if cells.len() > 0 {
        let front = cells.drop_last();
        lemma_free_cells_counted(front);
        if has_empty(cells) {
            let i = choose|i: int| 0 <= i < cells.len() && #[trigger] cells[i] is Empty;
            if i < cells.len() - 1 {
                assert(front[i] is Empty);
            }
        }
        if has_empty(front) {
            let i = choose|i: int| 0 <= i < front.len() && #[trigger] front[i] is Empty;
            assert(cells[i] is Empty);
        }
        if cells.last() is Empty {
            assert(cells[cells.len() - 1] is Empty);
        }
    }
}

/// On the board on which nobody has moved all nine cells are free.
pub proof fn lemma_empty_cells_counts(counted: CellOwner)
    ensures
        valid_cells(empty_cells()),
        count_of(empty_cells(), counted) == if counted is Empty {
            9nat
        } else {
            0nat
        },
{
    reveal_with_fuel(count_of, 10);
}

/// After `k` moves made in turn, each on a free cell, `k` cells are taken:
/// `PlayerA` holds every second one, beginning with the first.
pub proof fn lemma_board_after_counts(moves: Seq<int>)
    requires
        all_taken(moves),
    ensures
        valid_cells(board_after(moves)),
        count_of(board_after(moves), CellOwner::PlayerA) == (moves.len() + 1) / 2,
        count_of(board_after(moves), CellOwner::PlayerB) == moves.len() / 2,
        count_of(board_after(moves), CellOwner::Empty) == 9 - moves.len(),
        balanced(board_after(moves)),
    decreases moves.len(),
{
    if moves.len() == 0 {
        lemma_empty_cells_counts(CellOwner::PlayerA);
        lemma_empty_cells_counts(CellOwner::PlayerB);
        lemma_empty_cells_counts(CellOwner::Empty);
    } else {
        let before = board_after(moves.drop_last());
        let mover = mover_at(moves.len() - 1);
        lemma_board_after_counts(moves.drop_last());
        lemma_count_after_update(before, moves.last(), mover, CellOwner::PlayerA);
        lemma_count_after_update(before, moves.last(), mover, CellOwner::PlayerB);
        lemma_count_after_update(before, moves.last(), mover, CellOwner::Empty);
    }
}

/// While nobody holds a complete line, the outcome is a tie exactly when no
/// cell is free, and undecided as long as one is.
pub proof fn lemma_no_line_outcome(cells: Seq<CellOwner>)
    requires
        valid_cells(cells),
        !owns_any_line(cells, CellOwner::PlayerA),
        !owns_any_line(cells, CellOwner::PlayerB),
    ensures
        winner_of(cells) == if has_empty(cells) {
            CellOwner::Empty
        } else {
            CellOwner::Tie
        },
{
}

/// When the players move in turn, each on a free cell, and no line is
/// completed, the outcome is a tie once nine moves are made and never before;
/// a tenth move cannot be made.
pub proof fn lemma_tie_after_nine_moves(moves: Seq<int>)
    requires
        all_taken(moves),
        !owns_any_line(board_after(moves), CellOwner::PlayerA),
        !owns_any_line(board_after(moves), CellOwner::PlayerB),
    ensures
        moves.len() <= 9,
        balanced(board_after(moves)),
        winner_of(board_after(moves)) == if moves.len() == 9 {
            CellOwner::Tie
        } else {
            CellOwner::Empty
        },
{
    lemma_board_after_counts(moves);
    lemma_free_cells_counted(board_after(moves));
    lemma_no_line_outcome(board_after(moves));
}

/// A player who holds a complete line is the outcome, whatever the other
/// cells hold, unless the player is `PlayerB` and `PlayerA` holds a line too.
pub proof fn lemma_line_holder_wins(cells: Seq<CellOwner>, player: CellOwner)
    requires
        valid_cells(cells),
        player.is_player(),
        owns_any_line(cells, player),
        player is PlayerA || !owns_any_line(cells, CellOwner::PlayerA),
    ensures
        winner_of(cells) == player,
{
}

/// A claim of a cell that is taken is refused, whoever makes it, and leaves
/// the board as it was.
pub proof fn lemma_taken_cell_refused(cells: Seq<CellOwner>, index: int, owner: CellOwner)
    requires
        valid_cells(cells),
        0 <= index < 9,
        !(cells[index] is Empty),
    ensures
        !claimable(cells, index, owner),
        claim(cells, index, owner) == cells,
{
}

/// A player's claim of a free cell is taken; the same claim made again is
/// refused and changes nothing.
pub proof fn lemma_free_cell_claimed_once(cells: Seq<CellOwner>, index: int, player: CellOwner)
    requires
        valid_cells(cells),
        0 <= index < 9,
        cells[index] is Empty,
        player.is_player(),
    ensures
        claimable(cells, index, player),
        claim(cells, index, player)[index] == player,
        valid_cells(claim(cells, index, player)),
        !claimable(claim(cells, index, player), index, player),
        claim(claim(cells, index, player), index, player) == claim(cells, index, player),
{
}

/// The board of one game: nine cells, row by row.
pub struct GameBoard {
    cells: [CellOwner; 9],
}

impl View for GameBoard {
    type V = Seq<CellOwner>;

    closed spec fn view(&self) -> Seq<CellOwner> {
        self.cells@
    }
}

impl GameBoard {
    /// What holds of every board that this module hands out.
    pub open spec fn wf(&self) -> bool {
        valid_cells(self@)
    }

    /// The board on which nobody has moved.
    pub fn new() -> (r: GameBoard)
        ensures
            r.wf(),
            r@ == empty_cells(),
    {
        let r = GameBoard { cells: [CellOwner::Empty; 9] };
        assert(r@ =~= empty_cells());
        r
    }

    /// The owner of cell `index`, if there is such a cell.
    pub fn cell(&self, index: usize) -> (r: Option<CellOwner>)
        requires
            self.wf(),
        ensures
            r == if index < 9 {
                Some(self@[index as int])
            } else {
                None
            },
    {
        if index < 9 {
            Some(self.cells[index])
        } else {
            None
        }
    }

    /// Evaluates the board. The two players must have moved in turn:
    /// [`GameBoard::check_board_health`] tells whether they have.
    pub fn check_winner(&self) -> (r: CellOwner)
        requires
            self.wf(),
            balanced(self@),
        ensures
            r == winner_of(self@),
    {
        let checks: [CellOwner; 4] = [
            self.line_check(true),
            self.line_check(false),
            self.diagonal_check(true),
            self.diagonal_check(false),
        ];
        let mut k: usize = 0;
        while k < 4
            invariant
                k <= 4,
                checks@[0] == row_owner(self@),
                checks@[1] == column_owner(self@),
                checks@[2] == diagonal_owner(self@),
                checks@[3] == antidiagonal_owner(self@),
                forall|j: int| 0 <= j < k ==> !(#[trigger] checks@[j]).is_player(),
            decreases 4 - k,
        {
            let found = checks[k];
            if found == CellOwner::PlayerA || found == CellOwner::PlayerB {
                proof {
                    lemma_scan_finds_line_holder(self@);
                }
                return found;
            }
            k += 1;
        }
        assert(!checks@[0].is_player() && !checks@[1].is_player() && !checks@[2].is_player()
            && !checks@[3].is_player());
        proof {
            lemma_scan_finds_line_holder(self@);
        }
        let mut index: usize = 0;
        while index < 9
            invariant
                index <= 9,
                self.wf(),
                winner_of(self@) == if has_empty(self@) {
                    CellOwner::Empty
                } else {
                    CellOwner::Tie
                },
                forall|j: int| 0 <= j < index ==> !(#[trigger] self@[j] is Empty),
            decreases 9 - index,
        {
            if self.cells[index] == CellOwner::Empty {
                return CellOwner::Empty;
            }
            index += 1;
        }
        CellOwner::Tie
    }

    /// Claims cell `index` for `owner`. The claim is refused, and the board
    /// left as it was, where there is no such cell, where the cell is taken,
    /// and where `owner` is `Tie`.
    pub fn update_cell(&mut self, index: usize, owner: CellOwner) -> (ok: bool)
        requires
            old(self).wf(),
        ensures
            final(self).wf(),
            ok == claimable(old(self)@, index as int, owner),
            final(self)@ == claim(old(self)@, index as int, owner),
    {
        if index < 9 && owner != CellOwner::Tie && self.cells[index] == CellOwner::Empty {
            self.cells[index] = owner;
            assert(self@ =~= old(self)@.update(index as int, owner));
            true
        } else {
            false
        }
    }

    /// Whether the two players have moved in turn, so that neither holds two
    /// or more cells more than the other.
    pub fn check_board_health(&self) -> (ok: bool)
        requires
            self.wf(),
        ensures
            ok == balanced(self@),
    {
        let mut a_count: i32 = 0;
        let mut b_count: i32 = 0;
        let mut index: usize = 0;
        while index < 9
            invariant
                index <= 9,
                self.wf(),
                a_count == count_of(self@.take(index as int), CellOwner::PlayerA),
                b_count == count_of(self@.take(index as int), CellOwner::PlayerB),
                0 <= a_count <= index,
                0 <= b_count <= index,
            decreases 9 - index,
        {
            proof {
                lemma_count_of_step(self@, CellOwner::PlayerA, index as int);
                lemma_count_of_step(self@, CellOwner::PlayerB, index as int);
            }
            let cell = self.cells[index];
            if cell == CellOwner::PlayerA {
                a_count += 1;
            } else if cell == CellOwner::PlayerB {
                b_count += 1;
            }
            index += 1;
        }
        assert(self@.take(9) =~= self@);
        let skew: i32 = a_count - b_count;
        -2 < skew && skew < 2
    }

    /// Looks for a complete diagonal: the one from cell 0 where `main` holds,
    /// else the one from cell 2.
    fn diagonal_check(&self, main: bool) -> (r: CellOwner)
        requires
            self.wf(),
        ensures
            r == if main {
                diagonal_owner(self@)
            } else {
                antidiagonal_owner(self@)
            },
    {
        let mut a_count: i32 = 0;
        let mut b_count: i32 = 0;
        let mut index: usize = 0;
        while index < 9
            invariant
                index <= 9,
                self.wf(),
                a_count == diagonal_tally(self@, CellOwner::PlayerA, main, index as int),
                b_count == diagonal_tally(self@, CellOwner::PlayerB, main, index as int),
                0 <= a_count <= index,
                0 <= b_count <= index,
            decreases 9 - index,
        {
            let picked = if main {
                index % 4 == 0
            } else {
                index != 0 && index != 8 && index % 2 == 0
            };
            if picked {
                match self.cells[index] {
                    CellOwner::PlayerA => a_count += 1,
                    CellOwner::PlayerB => b_count += 1,
                    _ => (),
                }
            }
            index += 1;
        }
        proof {
            lemma_diagonal_tally_full(self@, CellOwner::PlayerA, main);
            lemma_diagonal_tally_full(self@, CellOwner::PlayerB, main);
        }
        if a_count == 3 {
            CellOwner::PlayerA
        } else if b_count == 3 {
            CellOwner::PlayerB
        } else {
            CellOwner::Empty
        }
    }

    /// Looks for a complete row where `rows` holds, else for a complete column.
    fn line_check(&self, rows: bool) -> (r: CellOwner)
        requires
            self.wf(),
        ensures
            r == if rows {
                row_owner(self@)
            } else {
                column_owner(self@)
            },
    {
        let mut a_counts: [i32; 3] = [0, 0, 0];
        let mut b_counts: [i32; 3] = [0, 0, 0];
        let mut index: usize = 0;
        while index < 9
            invariant
                index <= 9,
                self.wf(),
                forall|g: int|
                    0 <= g < 3 ==> #[trigger] a_counts@[g] == group_tally(
                        self@,
                        CellOwner::PlayerA,
                        rows,
                        g,
                        index as int,
                    ),
                forall|g: int|
                    0 <= g < 3 ==> #[trigger] b_counts@[g] == group_tally(
                        self@,
                        CellOwner::PlayerB,
                        rows,
                        g,
                        index as int,
                    ),
                forall|g: int| 0 <= g < 3 ==> 0 <= #[trigger] a_counts@[g] <= index,
                forall|g: int| 0 <= g < 3 ==> 0 <= #[trigger] b_counts@[g] <= index,
            decreases 9 - index,
        {
            let group = if rows {
                index / 3
            } else {
                index % 3
            };
            match self.cells[index] {
                CellOwner::PlayerA => a_counts[group] += 1,
                CellOwner::PlayerB => b_counts[group] += 1,
                _ => (),
            }
            index += 1;
        }
        proof {
            lemma_group_tally_full(self@, CellOwner::PlayerA, rows);
            lemma_group_tally_full(self@, CellOwner::PlayerB, rows);
        }
        if a_counts[0] == 3 || a_counts[1] == 3 || a_counts[2] == 3 {
            CellOwner::PlayerA
        } else if b_counts[0] == 3 || b_counts[1] == 3 || b_counts[2] == 3 {
            CellOwner::PlayerB
        } else {
            CellOwner::Empty
        }
    }
}

} // verus!
