//! The game: a board, the piece that is falling on it, and the events that
//! move the piece, settle it and take full rows out.

use crate::falling::{
    lemma_fits_places, lemma_local_global_inverse, lemma_rotated_places, lemma_spawned_is_clear,
    FallingTetromino, Piece,
};
use crate::grid::{lemma_cell_index, lemma_cell_index_distinct, Grid, GridView};
use crate::lines::clear_full_rows;
use crate::math::Rotation;
use crate::tetromino::{is_shape, Catalog, MAX_SHAPE_EXTENT};
use rand::rngs::ThreadRng;
use rand::seq::SliceRandom;
use vstd::prelude::*;

verus! {

/// The generator of random numbers that `rand` keeps for each thread. Its
/// state is not modelled.
#[verifier::external_type_specification]
#[verifier::external_body]
pub struct ExThreadRng(ThreadRng);

/// `rand::thread_rng` hands out the generator of the calling thread.
/// Nothing is claimed of it. It panics if the operating system gives it no
/// seed.
pub assume_specification[ rand::thread_rng ]() -> (rng: ThreadRng)
;

/// Whether `picked` is what a choice among `shapes` may give: nothing if
/// there is no shape, else one of the shapes.
pub open spec fn picked_from(shapes: Seq<Grid>, picked: Option<&Grid>) -> bool {
    if shapes.len() == 0 {
        picked is None
    } else {
        exists|k: int| 0 <= k < shapes.len() && picked == Some(&#[trigger] shapes[k])
    }
}

/// `rand::seq::SliceRandom::choose` on a slice: nothing when the slice is
/// empty, else a reference to one of its elements. Which element is left
/// open.
#[verifier::external_body]
fn choose_shape<'a>(shapes: &'a [Grid], rng: &mut ThreadRng) -> (picked: Option<&'a Grid>)
    ensures
        picked_from(shapes@, picked),
{
    shapes.choose(rng)
}

/// The widest and the tallest that the board of a game may be.
pub const MAX_BOARD_EXTENT: usize = 0x800_0000;

/// What can happen to a game.
#[derive(Clone, Copy, Debug, PartialEq, Eq)]
pub enum GameEvent {
    Tick,
    MoveLeft,
    MoveRight,
    Rotate,
}

/// How a cell is to be drawn.
#[derive(Clone, Copy, Debug, PartialEq, Eq)]
pub enum Paint {
    /// A block of the falling piece.
    Falling,
    /// A settled block, while the game goes on.
    Settled,
    /// A settled block, once the game is over.
    Lost,
}

/// A cell to be drawn: its column, its row and how to draw it.
#[derive(Clone, Copy, Debug, PartialEq, Eq)]
pub struct Tile {
    pub col: usize,
    pub row: usize,
    pub paint: Paint,
}

/// The model of a [`Game`].
pub struct GameView {
    pub board: GridView,
    pub falling: Option<Piece>,
    pub over: bool,
}

impl GameView {
    /// Whether the falling piece, if there is one, lies on no block of the
    /// board.
    pub open spec fn no_overlap(self) -> bool {
        self.falling matches Some(piece) ==> piece.clear_of(self.board)
    }

    /// How the cell at column `i`, row `j` is to be drawn, if at all: as a
    /// block of the falling piece where the piece has one, else as a settled
    /// block where the board has one.
    pub open spec fn paint_at(self, i: int, j: int) -> Option<Paint> {
        if self.falling matches Some(piece) && piece.covers(i, j) {
            Some(Paint::Falling)
        } else if self.board.occupied(i, j) {
            Some(
                if self.over {
                    Paint::Lost
                } else {
                    Paint::Settled
                },
            )
        } else {
            None
        }
    }

    /// The places of the first `n` cells of the board in scan order.
    pub open spec fn places(self, n: nat) -> Seq<(int, int)> {
        Seq::new(n, |k: int| self.board.scan(k))
    }

    /// The tile for a place that is to be drawn.
    pub open spec fn tile_at(self, at: (int, int)) -> Tile {
        Tile { col: at.0 as usize, row: at.1 as usize, paint: self.paint_at(at.0, at.1).unwrap() }
    }

    /// Whether a place is to be drawn, as a function of the place.
    pub open spec fn is_drawn(self) -> spec_fn((int, int)) -> bool {
        |at: (int, int)| self.paint_at(at.0, at.1) is Some
    }

    /// The tile for a place, as a function of the place.
    pub open spec fn to_tile(self) -> spec_fn((int, int)) -> Tile {
        |at: (int, int)| self.tile_at(at)
    }

    /// The tiles among the first `n` cells of the board, in scan order.
    pub open spec fn tiles_among(self, n: nat) -> Seq<Tile> {
        self.places(n).filter(self.is_drawn()).map_values(self.to_tile())
    }

    /// Everything that is to be drawn: a tile for each cell of the board
    /// that holds a settled block or a block of the falling piece, in scan
    /// order.
    pub open spec fn tiles(self) -> Seq<Tile> {
        self.tiles_among(self.board.area())
    }

    /// The game after a piece of the given shape has entered. The game is
    /// over if the piece cannot move down by one row.
    pub open spec fn with_spawn(self, shape: GridView) -> GameView {
        let piece = Piece::spawned(shape, self.board.cols);
        GameView {
            falling: Some(piece),
            over: self.over || !piece.fits(self.board, 0, 1),
            ..self
        }
    }

    /// The game after `piece` has settled: its blocks are on the board,
    /// every full row is taken out, and no piece is falling.
    pub open spec fn landed(self, piece: Piece) -> GameView {
        GameView { board: piece.merged_into(self.board).compacted(), falling: None, ..self }
    }

    /// The game after the falling piece has tried the shift `(dx, dy)`.
    pub open spec fn shifted(self, dx: int, dy: int) -> GameView {
        match self.falling {
            Some(piece) if piece.fits(self.board, dx, dy) => GameView {
                falling: Some(piece.moved(dx, dy)),
                ..self
            },
            _ => self,
        }
    }

    /// The game after `event`, but for the piece that may then enter. A
    /// game that is over stays as it is. A tick moves the falling piece down
    /// by one row or, if it cannot move, settles it.
    pub open spec fn stepped(self, event: GameEvent) -> GameView {
        if self.over {
            self
        } else {
            match (event, self.falling) {
                (GameEvent::Tick, Some(piece)) => if piece.fits(self.board, 0, 1) {
                    self.shifted(0, 1)
                } else {
                    self.landed(piece)
                },
                (GameEvent::MoveLeft, _) => self.shifted(-1, 0),
                (GameEvent::MoveRight, _) => self.shifted(1, 0),
                (GameEvent::Rotate, Some(piece)) => GameView {
                    falling: Some(piece.rotated(self.board)),
                    ..self
                },
                _ => self,
            }
        }
    }

    /// Whether the board is well formed and the falling piece, if there is
    /// one, is made of a shape in one of the four rotations.
    pub open spec fn wf(self) -> bool {
        &&& self.board.wf()
        &&& self.falling matches Some(piece) ==> is_shape(piece.shape) && piece.rot.is_rotation()
    }

    /// Whether a piece enters after `event`: the game is not over, the event
    /// is a tick, and no piece is falling once the tick has been dealt with.
    pub open spec fn spawn_due(self, event: GameEvent) -> bool {
        !self.over && event == GameEvent::Tick && self.stepped(event).falling is None
    }
}

/// Whether the piece has a block at column `i`, row `j` of the board that
/// belongs to one of the first `n` cells of its shape in scan order.
spec fn covered_by_first(piece: Piece, n: int, i: int, j: int) -> bool {
    let l = piece.global_to_local((i, j));
    piece.shape.occupied(l.0, l.1) && l.0 + l.1 * piece.shape.cols < n
}

/// Once a piece that lies on no block of the board has settled, a cell
/// holds a block if it held one before or if the piece has a block there
/// inside the board, and never for both reasons: no block is lost and none
/// is written over.
pub proof fn lemma_merge_keeps_blocks(piece: Piece, board: GridView, i: int, j: int)
    requires
        piece.clear_of(board),
    ensures
        piece.merged_into(board).occupied(i, j) <==> board.occupied(i, j) || (piece.covers(i, j)
            && board.contains(i, j)),
        !(board.occupied(i, j) && piece.covers(i, j)),
        piece.merged_into(board).cols == board.cols,
        piece.merged_into(board).height() == board.height(),
{
}

/// Puts the blocks of a piece on the board, each at its place. Blocks
/// outside the board are dropped.
pub fn merge(board: &mut Grid, tetromino: &FallingTetromino)
    requires
        tetromino@.in_range(),
        tetromino@.clear_of(old(board)@),
    ensures
        final(board)@ == tetromino@.merged_into(old(board)@),
{
    let ghost piece = tetromino@;
    let ghost shape = tetromino.tetromino@;
    let ghost before = board@;
    proof {
        board.lemma_view_wf();
        tetromino.tetromino.lemma_view_wf();
    }
    let mut cells = tetromino.tetromino.cell_indices();
    loop
        invariant
            piece == tetromino@,
            shape == piece.shape,
            shape.wf(),
            piece.in_range(),
            piece.clear_of(before),
            before.wf(),
            cells.grid() == shape,
            cells.pos() <= shape.area(),
            board@.wf(),
            board@.cols == before.cols,
            board@.height() == before.height(),
            forall|i: int, j: int|
                before.contains(i, j) ==> #[trigger] board@.rows[j][i] == if covered_by_first(
                    piece,
                    cells.pos() as int,
                    i,
                    j,
                ) {
                    let l = piece.global_to_local((i, j));
                    shape.at(l.0, l.1)
                } else {
                    before.rows[j][i]
                },
        ensures
            cells.pos() == shape.area(),
        decreases shape.area() - cells.pos(),
    {
        let ghost n = cells.pos() as int;
        let ghost current = board@;
        match cells.next() {
            None => {
                break ;
            },
            Some((ci, cj, block)) => {
                let g = tetromino.local_to_global([ci as isize, cj as isize]);
                proof {
                    lemma_local_global_inverse(piece, (ci as int, cj as int));
                    crate::grid::lemma_scan_inside(n, shape.cols as int, shape.height() as int);
                }
                if block.is_some() {
                    proof {
                        // no block of the board is written over
                        assert(piece.covers(g[0] as int, g[1] as int));
                        assert(!before.occupied(g[0] as int, g[1] as int));
                    }
                    board.set(g[0], g[1], *block);
                }
                proof {
                    assert forall|i: int, j: int| before.contains(i, j) implies
                        #[trigger] board@.rows[j][i] == if covered_by_first(piece, n + 1, i, j) {
                        let l = piece.global_to_local((i, j));
                        shape.at(l.0, l.1)
                    } else {
                        before.rows[j][i]
                    } by {
                        let l = piece.global_to_local((i, j));
                        lemma_local_global_inverse(piece, (i, j));
                        assert(current.rows[j][i] == if covered_by_first(piece, n, i, j) {
                            shape.at(l.0, l.1)
                        } else {
                            before.rows[j][i]
                        });
                        if shape.occupied(l.0, l.1) && l.0 + l.1 * shape.cols == n {
                            lemma_cell_index_distinct(
                                l.0,
                                l.1,
                                ci as int,
                                cj as int,
                                shape.cols as int,
                            );
                        }
                    }
                }
            },
        }
    }
    proof {
        let want = piece.merged_into(before);
        assert forall|j: int| 0 <= j < before.height() implies board@.rows[j] == want.rows[j] by {
            assert forall|i: int| 0 <= i < before.cols implies board@.rows[j][i]
                == want.rows[j][i] by {
                let l = piece.global_to_local((i, j));
                assert(before.contains(i, j));
                if shape.occupied(l.0, l.1) {
                    lemma_cell_index(l.0, l.1, shape.cols as int, shape.height() as int);
                }
            }
            assert(board@.rows[j] =~= want.rows[j]);
        }
        assert(board@.rows =~= want.rows);
    }
}

/// In a game whose falling piece lies on no settled block, it lies on none
/// after any event either, nor does a piece that enters.
pub proof fn lemma_events_keep_clear(game: GameView, event: GameEvent, shape: GridView)
    requires
        game.wf(),
        game.no_overlap(),
        is_shape(shape),
    ensures
        game.stepped(event).wf(),
        game.stepped(event).no_overlap(),
        game.with_spawn(shape).wf(),
        game.with_spawn(shape).no_overlap(),
{
    lemma_spawned_is_clear(shape, game.board);
    if let Some(piece) = game.falling {
        lemma_rotated_places(piece, game.board);
        if piece.fits(game.board, 0, 1) {
            lemma_fits_places(piece, game.board, 0, 1);
        }
        if piece.fits(game.board, -1, 0) {
            lemma_fits_places(piece, game.board, -1, 0);
        }
        if piece.fits(game.board, 1, 0) {
            lemma_fits_places(piece, game.board, 1, 0);
        }
        crate::lines::lemma_compacted_shape(piece.merged_into(game.board));
    }
}

/// Once a game is over, every event leaves it as it is, and no piece
/// enters.
pub proof fn lemma_over_is_final(game: GameView, event: GameEvent)
    requires
        game.over,
    ensures
        game.stepped(event) == game,
        !game.spawn_due(event),
{
}

/// The tiles among the first `n + 1` cells are those among the first `n`,
/// followed by the tile of the `n`-th cell if that cell is to be drawn.
pub proof fn lemma_tiles_grow(game: GameView, n: nat)
    ensures
        game.tiles_among(n + 1) == ({
            let at = game.board.scan(n as int);
            if game.paint_at(at.0, at.1) is Some {
                game.tiles_among(n).push(game.tile_at(at))
            } else {
                game.tiles_among(n)
            }
        }),
{
    let keep = game.is_drawn();
    let tile = game.to_tile();
    let at = game.board.scan(n as int);
    let before = game.places(n);
    let now = game.places(n + 1);
    assert(now =~= before.push(at));
    assert(now.drop_last() =~= before);
    assert(now.last() == at);
    assert(now.filter(keep) == if keep(at) {
        before.filter(keep).push(at)
    } else {
        before.filter(keep)
    }) by {
        reveal(Seq::filter);
    }
    assert(before.filter(keep).push(at).map_values(tile) =~= before.filter(keep).map_values(
        tile,
    ).push(tile(at)));
}

/// A game in progress.
pub struct Game<'a> {
    catalog: &'a Catalog,
    falling: Option<FallingTetromino<'a>>,
    board: Grid,
    over: bool,
}

impl<'a> View for Game<'a> {
    type V = GameView;

    closed spec fn view(&self) -> GameView {
        GameView {
            board: self.board@,
            falling: match self.falling {
                Some(tetromino) => Some(tetromino@),
                None => None,
            },
            over: self.over,
        }
    }
}

/// Whether a piece on a board of the given size is a shape in one of the
/// four rotations, close enough to the board for the arithmetic on it.
spec fn within_reach(piece: Piece, board: GridView) -> bool {
    &&& is_shape(piece.shape)
    &&& piece.rot.is_rotation()
    &&& -2 * MAX_SHAPE_EXTENT <= piece.col <= board.cols + 2 * MAX_SHAPE_EXTENT
    &&& -2 * MAX_SHAPE_EXTENT <= piece.row <= board.height() + 2 * MAX_SHAPE_EXTENT
}

impl<'a> Game<'a> {
    #[verifier::type_invariant]
    spec fn inv(&self) -> bool {
        &&& self.board@.cols <= MAX_BOARD_EXTENT
        &&& self.board@.height() <= MAX_BOARD_EXTENT
        &&& self.falling matches Some(tetromino) ==> within_reach(tetromino@, self.board@)
            && tetromino@.clear_of(self.board@)
    }

    /// The shapes that pieces of this game are made of.
    pub closed spec fn catalog(&self) -> Seq<GridView> {
        self.catalog@
    }

    /// A game on an empty board of `board_size[0]` columns and
    /// `board_size[1]` rows, with no piece falling yet.
    pub fn new(board_size: [usize; 2], catalog: &'a Catalog) -> (game: Self)
        requires
            board_size[0] <= MAX_BOARD_EXTENT,
            board_size[1] <= MAX_BOARD_EXTENT,
            board_size[0] * board_size[1] <= usize::MAX,
        ensures
            game@ == (GameView {
                board: GridView::empty(board_size[0] as nat, board_size[1] as nat),
                falling: None,
                over: false,
            }),
            game.catalog() == catalog@,
    {
        Self { catalog, falling: None, board: Grid::new(board_size), over: false }
    }

    /// Whether the game is over.
    pub fn is_over(&self) -> (over: bool)
        ensures
            over == self@.over,
    {
        self.over
    }

    /// The board with the blocks that have settled.
    pub fn board(&self) -> (board: &Grid)
        ensures
            board@ == self@.board,
    {
        &self.board
    }

    /// The piece that is falling, if there is one.
    pub fn falling(&self) -> (falling: Option<FallingTetromino<'a>>)
        ensures
            falling is Some <==> self@.falling is Some,
            falling matches Some(tetromino) ==> self@.falling == Some(tetromino@)
                && tetromino@.in_range(),
    {
        proof {
            use_type_invariant(self);
        }
        self.falling
    }

    /// Lets a piece of the given shape enter: not rotated, centered between
    /// the walls, with its whole shape above the top row. The piece that was
    /// falling, if any, is dropped. The game is over if the new piece cannot
    /// move down by one row.
    fn install(&mut self, shape: &'a Grid)
        requires
            is_shape(shape@),
        ensures
            final(self)@ == old(self)@.with_spawn(shape@),
            final(self).catalog() == old(self).catalog(),
            final(self)@.no_overlap(),
    {
        proof {
            use_type_invariant(&*self);
            lemma_spawned_is_clear(shape@, self.board@);
        }
        let col = (self.board.cols() / 2) as isize - (shape.cols() / 2) as isize;
        let tetromino = FallingTetromino {
            tetromino: shape,
            col,
            row: -(shape.rows() as isize),
            rotation: Rotation::identity(),
        };
        assert(tetromino@ == Piece::spawned(shape@, self.board@.cols));

        let mut probe = tetromino;
        if !probe.try_move(0, 1, &self.board) {
            self.over = true;
        }
        self.falling = Some(tetromino);
    }

    /// Lets a piece enter whose shape is picked at random from the catalog.
    pub fn spawn_tetromino(&mut self)
        ensures
            exists|k: int|
                0 <= k < old(self).catalog().len() && final(self)@ == old(self)@.with_spawn(
                    #[trigger] old(self).catalog()[k],
                ),
            final(self).catalog() == old(self).catalog(),
            final(self)@.no_overlap(),
    {
        let mut rng = rand::thread_rng();
        let shapes = self.catalog.shapes();
        let picked = choose_shape(shapes, &mut rng);
        let ghost k = choose|k: int| 0 <= k < shapes@.len() && picked == Some(&shapes@[k]);
        let tetromino = picked.unwrap();
        self.install(tetromino);
        assert(self@ == old(self)@.with_spawn(old(self).catalog()[k]));
    }

    /// Settles a piece: puts its blocks on the board, then takes every full
    /// row out.
    fn persist_tetromino(&mut self, tetromino: FallingTetromino<'a>)
        requires
            old(self)@.falling is None,
            within_reach(tetromino@, old(self)@.board),
            tetromino@.clear_of(old(self)@.board),
        ensures
            final(self)@ == old(self)@.landed(tetromino@),
            final(self).catalog() == old(self).catalog(),
    {
        proof {
            use_type_invariant(&*self);
            self.board.lemma_view_wf();
        }
        // the board is taken out while it is rebuilt
        let mut board = Grid::new([0, 0]);
        core::mem::swap(&mut self.board, &mut board);
        merge(&mut board, &tetromino);
        clear_full_rows(&mut board);
        proof {
            tetromino@.merged_into(old(self)@.board).lemma_compacted_size();
        }
        self.board = board;
    }

    /// Lets the falling piece try the shift `(dx, dy)`.
    fn shift(&mut self, dx: isize, dy: isize)
        requires
            -1 <= dx <= 1,
            0 <= dy <= 1,
        ensures
            final(self)@ == old(self)@.shifted(dx as int, dy as int),
            final(self).catalog() == old(self).catalog(),
    {
        proof {
            use_type_invariant(&*self);
        }
        match self.falling {
            None => {},
            Some(found) => {
                let mut tetromino = found;
                if tetromino.try_move(dx, dy, &self.board) {
                    proof {
                        lemma_fits_places(found@, self.board@, dx as int, dy as int);
                    }
                    self.falling = Some(tetromino);
                }
            },
        }
    }

    /// Deals with `event`, but for the piece that may then enter, and says
    /// whether one is due. A game that is over stays as it is.
    pub fn step(&mut self, event: GameEvent) -> (due: bool)
        ensures
            final(self)@ == old(self)@.stepped(event),
            due == old(self)@.spawn_due(event),
            old(self)@.over ==> final(self)@ == old(self)@,
            final(self).catalog() == old(self).catalog(),
            final(self)@.no_overlap(),
    {
        proof {
            use_type_invariant(&*self);
        }
        if self.over {
            return false;
        }
        match event {
            GameEvent::Tick => {
                match self.falling {
                    None => {},
                    Some(found) => {
                        let mut tetromino = found;
                        if tetromino.try_move(0, 1, &self.board) {
                            proof {
                                lemma_fits_places(found@, self.board@, 0, 1);
                            }
                            self.falling = Some(tetromino);
                        } else {
                            self.falling = None;
                            self.persist_tetromino(tetromino);
                        }
                    },
                }
                proof {
                    use_type_invariant(&*self);
                }
                self.falling.is_none()
            },
            GameEvent::MoveLeft => {
                self.shift(-1, 0);
                proof {
                    use_type_invariant(&*self);
                }
                false
            },
            GameEvent::MoveRight => {
                self.shift(1, 0);
                proof {
                    use_type_invariant(&*self);
                }
                false
            },
            GameEvent::Rotate => {
                match self.falling {
                    None => {},
                    Some(found) => {
                        let mut tetromino = found;
                        tetromino.rotate(&self.board);
                        proof {
                            lemma_rotated_places(found@, self.board@);
                        }
                        self.falling = Some(tetromino);
                    },
                }
                false
            },
        }
    }

    /// Deals with `event`. A game that is over stays as it is. A tick moves
    /// the falling piece down by one row or, if it cannot move, settles it
    /// and takes every full row out; if no piece is falling after that, one
    /// enters whose shape is picked at random from the catalog. The other
    /// events move the falling piece to the left or to the right or rotate
    /// it, if it can be done.
    pub fn handle_event(&mut self, event: GameEvent)
        ensures
            !old(self)@.spawn_due(event) ==> final(self)@ == old(self)@.stepped(event),
            old(self)@.spawn_due(event) ==> exists|k: int|
                0 <= k < old(self).catalog().len() && final(self)@ == old(self)@.stepped(
                    event,
                ).with_spawn(#[trigger] old(self).catalog()[k]),
            old(self)@.over ==> final(self)@ == old(self)@,
            final(self).catalog() == old(self).catalog(),
            final(self)@.no_overlap(),
    {
        if self.step(event) {
            self.spawn_tetromino();
        }
    }

    /// What is to be drawn: a tile for each cell of the board that holds a
    /// block of the falling piece or a settled block, in scan order.
    pub fn render(&self) -> (tiles: Vec<Tile>)
        ensures
            tiles@ == self@.tiles(),
    {
        proof {
            use_type_invariant(self);
        }
        let settled = if self.over {
            Paint::Lost
        } else {
            Paint::Settled
        };
        let ghost game = self@;
        let mut tiles: Vec<Tile> = Vec::new();
        let mut cells = self.board.cell_indices();
        proof {
            reveal(Seq::filter);
            assert(game.places(0) =~= Seq::<(int, int)>::empty());
            assert(game.tiles_among(0) =~= Seq::<Tile>::empty());
        }
        loop
            invariant
                game == self@,
                self.inv(),
                cells.grid() == game.board,
                cells.pos() <= game.board.area(),
                tiles@ == game.tiles_among(cells.pos()),
                settled == if game.over {
                    Paint::Lost
                } else {
                    Paint::Settled
                },
            ensures
                cells.pos() == game.board.area(),
            decreases game.board.area() - cells.pos(),
        {
            let ghost n = cells.pos();
            match cells.next() {
                None => {
                    break ;
                },
                Some((i, j, cell)) => {
                    let ghost at = (i as int, j as int);
                    proof {
                        lemma_tiles_grow(game, n);
                    }
                    let covered = match self.falling {
                        Some(tetromino) => tetromino.get(i, j).is_some(),
                        None => false,
                    };
                    if covered {
                        tiles.push(Tile { col: i, row: j, paint: Paint::Falling });
                    } else if cell.is_some() {
                        tiles.push(Tile { col: i, row: j, paint: settled });
                    }
                },
            }
        }
        tiles
    }

    /// Lets a piece of the `k`-th shape of the catalog enter.
    pub fn spawn(&mut self, k: usize)
        requires
            k < old(self).catalog().len(),
        ensures
            final(self)@ == old(self)@.with_spawn(old(self).catalog()[k as int]),
            final(self).catalog() == old(self).catalog(),
            final(self)@.no_overlap(),
    {
        let shape = self.catalog.shape(k);
        self.install(shape);
    }
}

} // verus!
