//! The board: a rectangular grid of tiles tracking occupancy, occupant color
//! and the original-piece flag used for castling eligibility. The board has no
//! knowledge of piece identity beyond color and emptiness.
use vstd::prelude::*;

verus! {

/// Checkerboard color of a tile, fixed at construction by coordinate parity.
#[derive(Clone, Copy, PartialEq, Eq, Structural, Debug)]
pub enum Color {
    Black,
    White,
}

/// One square of the board.
#[derive(Clone, Copy, PartialEq, Eq, Structural, Debug)]
pub struct Tile {
    pub color: Color,
    pub is_empty: bool,
    /// Meaningful only when the tile is not empty.
    pub piece_is_white: bool,
    /// True until any piece has ever left or landed on this square.
    pub has_orig_piece: bool,
}

/// Mathematical image of a board: its dimensions and the grid contents,
/// stored row-major as one sequence indexed by `x * size_y + y`.
#[verifier::ext_equal]
pub struct BoardView {
    pub size_x: int,
    pub size_y: int,
    pub tiles: Seq<Tile>,
}

impl BoardView {
    pub open spec fn wf(self) -> bool {
        &&& 1 <= self.size_x <= 1_000_000
        &&& 1 <= self.size_y <= 1_000_000
        &&& self.tiles.len() == self.size_x * self.size_y
    }

    pub open spec fn in_bounds(self, x: int, y: int) -> bool {
        0 <= x < self.size_x && 0 <= y < self.size_y
    }

    pub open spec fn tile(self, x: int, y: int) -> Tile {
        self.tiles[x * self.size_y + y]
    }

    pub open spec fn empty_at(self, x: int, y: int) -> bool {
        self.tile(x, y).is_empty
    }

    pub open spec fn white_at(self, x: int, y: int) -> bool {
        self.tile(x, y).piece_is_white
    }

    pub open spec fn orig_at(self, x: int, y: int) -> bool {
        self.tile(x, y).has_orig_piece
    }

    pub open spec fn update_tile(self, x: int, y: int, t: Tile) -> BoardView {
        BoardView { size_x: self.size_x, size_y: self.size_y, tiles: self.tiles.update(x * self.size_y + y, t) }
    }

    /// The board after a piece of the given color moves from `(fx, fy)` to
    /// `(tx, ty)`: the target becomes occupied by the mover, the origin
    /// becomes empty, and the original-piece flag is cleared on both squares.
    pub open spec fn with_move(self, fx: int, fy: int, tx: int, ty: int, white: bool) -> BoardView {
        let b1 = self.update_tile(
            tx,
            ty,
            Tile {
                color: self.tile(tx, ty).color,
                is_empty: false,
                piece_is_white: white,
                has_orig_piece: false,
            },
        );
        b1.update_tile(
            fx,
            fy,
            Tile {
                color: b1.tile(fx, fy).color,
                is_empty: true,
                piece_is_white: b1.tile(fx, fy).piece_is_white,
                has_orig_piece: false,
            },
        )
    }
}

/// Flat index of an in-range coordinate pair is in range of the grid.
pub proof fn lemma_flat_index(sx: int, sy: int, x: int, y: int)
    by (nonlinear_arith)
    requires
        0 <= x < sx,
        0 <= y < sy,
        sx <= 1_000_000,
        sy <= 1_000_000,
    ensures
        0 <= x * sy + y < sx * sy,
        x * sy + y < 1_000_000_000_000,
{
}

/// Distinct coordinate pairs have distinct flat indices.
pub proof fn lemma_flat_index_injective(sy: int, x1: int, y1: int, x2: int, y2: int)
    by (nonlinear_arith)
    requires
        0 <= y1 < sy,
        0 <= y2 < sy,
        x1 >= 0,
        x2 >= 0,
        x1 * sy + y1 == x2 * sy + y2,
    ensures
        x1 == x2 && y1 == y2,
{
}

/// Reading a tile of an updated board: the written tile at the written
/// coordinates, the old tile everywhere else.
pub broadcast proof fn lemma_update_tile_read(b: BoardView, x: int, y: int, t: Tile, x2: int, y2: int)
    requires
        b.wf(),
        b.in_bounds(x, y),
        b.in_bounds(x2, y2),
    ensures
        #[trigger] b.update_tile(x, y, t).tile(x2, y2) == (if x == x2 && y == y2 {
            t
        } else {
            b.tile(x2, y2)
        }),
{
    lemma_flat_index(b.size_x, b.size_y, x, y);
    lemma_flat_index(b.size_x, b.size_y, x2, y2);
    if x * b.size_y + y == x2 * b.size_y + y2 {
        lemma_flat_index_injective(b.size_y, x, y, x2, y2);
    }
}

/// Updating a tile preserves well-formedness and the dimensions.
pub broadcast proof fn lemma_update_tile_wf(b: BoardView, x: int, y: int, t: Tile)
    requires
        b.wf(),
        b.in_bounds(x, y),
    ensures
        #[trigger] b.update_tile(x, y, t).wf(),
        b.update_tile(x, y, t).size_x == b.size_x,
        b.update_tile(x, y, t).size_y == b.size_y,
{
    lemma_flat_index(b.size_x, b.size_y, x, y);
}

/// Reading a tile of a board after a move, pointwise.
pub broadcast proof fn lemma_with_move_read(
    b: BoardView,
    fx: int,
    fy: int,
    tx: int,
    ty: int,
    white: bool,
    x: int,
    y: int,
)
    requires
        b.wf(),
        b.in_bounds(fx, fy),
        b.in_bounds(tx, ty),
        b.in_bounds(x, y),
    ensures
        #[trigger] b.with_move(fx, fy, tx, ty, white).tile(x, y) == (if x == fx && y == fy {
            Tile {
                color: b.tile(x, y).color,
                is_empty: true,
                piece_is_white: if fx == tx && fy == ty {
                    white
                } else {
                    b.tile(x, y).piece_is_white
                },
                has_orig_piece: false,
            }
        } else if x == tx && y == ty {
            Tile {
                color: b.tile(x, y).color,
                is_empty: false,
                piece_is_white: white,
                has_orig_piece: false,
            }
        } else {
            b.tile(x, y)
        }),
        b.with_move(fx, fy, tx, ty, white).wf(),
        b.with_move(fx, fy, tx, ty, white).size_x == b.size_x,
        b.with_move(fx, fy, tx, ty, white).size_y == b.size_y,
{
    let t1 = Tile {
        color: b.tile(tx, ty).color,
        is_empty: false,
        piece_is_white: white,
        has_orig_piece: false,
    };
    let b1 = b.update_tile(tx, ty, t1);
    lemma_update_tile_wf(b, tx, ty, t1);
    lemma_update_tile_read(b, tx, ty, t1, fx, fy);
    lemma_update_tile_read(b, tx, ty, t1, x, y);
    lemma_update_tile_read(b, tx, ty, t1, tx, ty);
    let t2 = Tile {
        color: b1.tile(fx, fy).color,
        is_empty: true,
        piece_is_white: b1.tile(fx, fy).piece_is_white,
        has_orig_piece: false,
    };
    lemma_update_tile_wf(b1, fx, fy, t2);
    lemma_update_tile_read(b1, fx, fy, t2, x, y);
}

/// The tile every square starts with: empty, original-piece flag set, colored
/// by the checkerboard parity of its coordinates.
pub open spec fn init_tile(x: int, y: int) -> Tile {
    Tile {
        color: if (x + y) % 2 == 0 {
            Color::White
        } else {
            Color::Black
        },
        is_empty: true,
        piece_is_white: false,
        has_orig_piece: true,
    }
}

/// Coordinates denoted by a two-character string: a letter (either case)
/// mapped to a 0-based file, a digit `1`-`9` mapped to a 0-based rank.
pub open spec fn spec_coords_of(s: Seq<char>) -> Option<(usize, usize)> {
    if s.len() != 2 {
        None
    } else {
        let c = s[0] as u32;
        let n = s[1] as u32;
        if !(49 <= n <= 57) {
            None
        } else if 97 <= c <= 122 {
            Some((((c - 97) as usize, (n - 49) as usize)))
        } else if 65 <= c <= 90 {
            Some((((c - 65) as usize, (n - 49) as usize)))
        } else {
            None
        }
    }
}

/// Relies on char::from_u32: yields the character with the given code point,
/// which exists for every point below the surrogate range.
#[verifier::external_body]
fn char_from_code(code: u32) -> (r: char)
    requires
        code < 0xD800,
    ensures
        r as u32 == code,
{
    char::from_u32(code).unwrap()
}

/// Relies on String::push: appends one character at the end.
#[verifier::external_body]
fn push_char(s: &mut String, c: char)
    ensures
        final(s)@ == old(s)@.push(c),
{
    s.push(c);
}

/// A rectangular board of tiles. Pure state container with coordinate
/// validity checks; it has no rule knowledge.
pub struct Board {
    pub tiles: Vec<Tile>,
    pub size_x: usize,
    pub size_y: usize,
}

impl View for Board {
    type V = BoardView;

    open spec fn view(&self) -> BoardView {
        BoardView { size_x: self.size_x as int, size_y: self.size_y as int, tiles: self.tiles@ }
    }
}

impl Board {
    /// Well-formedness: the view is well-formed and the public dimension
    /// fields agree with it.
    pub open spec fn inv(self) -> bool {
        &&& self@.wf()
        &&& self.size_x as int == self@.size_x
        &&& self.size_y as int == self@.size_y
    }

    /// A fresh board: every tile empty, original-piece flag set, colored by
    /// coordinate parity.
    pub fn new(size_x: usize, size_y: usize) -> (r: Board)
        requires
            1 <= size_x <= 1_000_000,
            1 <= size_y <= 1_000_000,
        ensures
            r.inv(),
            r.size_x == size_x,
            r.size_y == size_y,
            forall|x: int, y: int|
                r@.in_bounds(x, y) ==> r@.tile(x, y) == #[trigger] init_tile(x, y),
    {
        let mut tiles: Vec<Tile> = Vec::new();
        let mut x: usize = 0;
        while x < size_x
            invariant
                x <= size_x,
                1 <= size_x <= 1_000_000,
                1 <= size_y <= 1_000_000,
                tiles@.len() == x * size_y,
                forall|xx: int, yy: int|
                    0 <= xx < x && 0 <= yy < size_y ==> tiles@[xx * size_y + yy] == #[trigger] init_tile(xx, yy),
            decreases size_x - x,
        {
            let mut y: usize = 0;
            while y < size_y
                invariant
                    x < size_x,
                    y <= size_y,
                    1 <= size_x <= 1_000_000,
                    1 <= size_y <= 1_000_000,
                    tiles@.len() == x * size_y + y,
                    forall|xx: int, yy: int|
                        0 <= xx < x && 0 <= yy < size_y ==> tiles@[xx * size_y + yy] == #[trigger] init_tile(xx, yy),
                    forall|yy: int|
                        0 <= yy < y ==> tiles@[x * size_y + yy] == #[trigger] init_tile(x as int, yy),
                decreases size_y - y,
            {
                let color = if (x + y) % 2 == 0 {
                    Color::White
                } else {
                    Color::Black
                };
                tiles.push(Tile { color, is_empty: true, piece_is_white: false, has_orig_piece: true });
                assert forall|xx: int, yy: int|
                    0 <= xx < x && 0 <= yy < size_y implies tiles@[xx * size_y + yy] == #[trigger] init_tile(xx, yy) by {
                    lemma_flat_index(x as int, size_y as int, xx, yy);
                }
                y = y + 1;
            }
            proof {
                assert((x + 1) * size_y == x * size_y + size_y) by (nonlinear_arith);
            }
            x = x + 1;
        }
        let r = Board { tiles, size_x, size_y };
        proof {
            assert(r@.wf()) by {
                assert(size_x * size_y == r@.size_x * r@.size_y);
            }
            assert forall|x: int, y: int| r@.in_bounds(x, y) implies r@.tile(x, y) == #[trigger] init_tile(x, y) by {
                lemma_flat_index(size_x as int, size_y as int, x, y);
            }
        }
        r
    }

    /// Checked construction: succeeds exactly when both dimensions are
    /// positive and at most 1,000,000.
    pub fn try_new(size_x: usize, size_y: usize) -> (r: Option<Board>)
        ensures
            (r is Some) == (1 <= size_x <= 1_000_000 && 1 <= size_y <= 1_000_000),
            r is Some ==> {
                let b = r->Some_0;
                &&& b.inv()
                &&& b.size_x == size_x
                &&& b.size_y == size_y
                &&& forall|x: int, y: int|
                    b@.in_bounds(x, y) ==> b@.tile(x, y) == #[trigger] init_tile(x, y)
            },
    {
        if 1 <= size_x && size_x <= 1_000_000 && 1 <= size_y && size_y <= 1_000_000 {
            Some(Board::new(size_x, size_y))
        } else {
            None
        }
    }

    /// Bounds check: both coordinates within the board.
    pub fn is_valid_tile(&self, pos_x: usize, pos_y: usize) -> (r: bool)
        requires
            self.inv(),
        ensures
            r == self@.in_bounds(pos_x as int, pos_y as int),
    {
        pos_x < self.size_x && pos_y < self.size_y
    }

    /// Whether the tile holds no piece. Callers must have validated the
    /// coordinates.
    pub fn is_empty_tile(&self, pos_x: usize, pos_y: usize) -> (r: bool)
        requires
            self.inv(),
            self@.in_bounds(pos_x as int, pos_y as int),
        ensures
            r == self@.empty_at(pos_x as int, pos_y as int),
    {
        proof {
            lemma_flat_index(self@.size_x, self@.size_y, pos_x as int, pos_y as int);
        }
        let n = self.tiles.len();
        self.tiles[pos_x * self.size_y + pos_y].is_empty
    }

    /// Color of the occupant. Meaningful only when the tile is not empty.
    pub fn is_piece_white(&self, pos_x: usize, pos_y: usize) -> (r: bool)
        requires
            self.inv(),
            self@.in_bounds(pos_x as int, pos_y as int),
        ensures
            r == self@.white_at(pos_x as int, pos_y as int),
    {
        proof {
            lemma_flat_index(self@.size_x, self@.size_y, pos_x as int, pos_y as int);
        }
        let n = self.tiles.len();
        self.tiles[pos_x * self.size_y + pos_y].piece_is_white
    }

    /// Whether no piece has ever left or landed on this square.
    pub fn check_orig(&self, pos_x: usize, pos_y: usize) -> (r: bool)
        requires
            self.inv(),
            self@.in_bounds(pos_x as int, pos_y as int),
        ensures
            r == self@.orig_at(pos_x as int, pos_y as int),
    {
        proof {
            lemma_flat_index(self@.size_x, self@.size_y, pos_x as int, pos_y as int);
        }
        let n = self.tiles.len();
        self.tiles[pos_x * self.size_y + pos_y].has_orig_piece
    }

    /// Set whether the tile holds a piece.
    pub fn set_emptiness(&mut self, pos_x: usize, pos_y: usize, to_empty: bool)
        requires
            old(self).inv(),
            old(self)@.in_bounds(pos_x as int, pos_y as int),
        ensures
            final(self).inv(),
            final(self).size_x == old(self).size_x,
            final(self).size_y == old(self).size_y,
            final(self)@ == old(self)@.update_tile(
                pos_x as int,
                pos_y as int,
                Tile {
                    color: old(self)@.tile(pos_x as int, pos_y as int).color,
                    is_empty: to_empty,
                    piece_is_white: old(self)@.tile(pos_x as int, pos_y as int).piece_is_white,
                    has_orig_piece: old(self)@.tile(pos_x as int, pos_y as int).has_orig_piece,
                },
            ),
    {
        proof {
            lemma_flat_index(self@.size_x, self@.size_y, pos_x as int, pos_y as int);
        }
        let n = self.tiles.len();
        let i = pos_x * self.size_y + pos_y;
        let mut t = self.tiles[i];
        t.is_empty = to_empty;
        self.tiles[i] = t;
        proof {
            assert(final(self)@ =~= old(self)@.update_tile(
                pos_x as int,
                pos_y as int,
                Tile {
                    color: old(self)@.tile(pos_x as int, pos_y as int).color,
                    is_empty: to_empty,
                    piece_is_white: old(self)@.tile(pos_x as int, pos_y as int).piece_is_white,
                    has_orig_piece: old(self)@.tile(pos_x as int, pos_y as int).has_orig_piece,
                },
            ));
        }
    }

    /// Set the occupant color flag of the tile.
    pub fn set_piece_is_white(&mut self, pos_x: usize, pos_y: usize, is_white: bool)
        requires
            old(self).inv(),
            old(self)@.in_bounds(pos_x as int, pos_y as int),
        ensures
            final(self).inv(),
            final(self).size_x == old(self).size_x,
            final(self).size_y == old(self).size_y,
            final(self)@ == old(self)@.update_tile(
                pos_x as int,
                pos_y as int,
                Tile {
                    color: old(self)@.tile(pos_x as int, pos_y as int).color,
                    is_empty: old(self)@.tile(pos_x as int, pos_y as int).is_empty,
                    piece_is_white: is_white,
                    has_orig_piece: old(self)@.tile(pos_x as int, pos_y as int).has_orig_piece,
                },
            ),
    {
        proof {
            lemma_flat_index(self@.size_x, self@.size_y, pos_x as int, pos_y as int);
        }
        let n = self.tiles.len();
        let i = pos_x * self.size_y + pos_y;
        let mut t = self.tiles[i];
        t.piece_is_white = is_white;
        self.tiles[i] = t;
        proof {
            assert(final(self)@ =~= old(self)@.update_tile(
                pos_x as int,
                pos_y as int,
                Tile {
                    color: old(self)@.tile(pos_x as int, pos_y as int).color,
                    is_empty: old(self)@.tile(pos_x as int, pos_y as int).is_empty,
                    piece_is_white: is_white,
                    has_orig_piece: old(self)@.tile(pos_x as int, pos_y as int).has_orig_piece,
                },
            ));
        }
    }

    /// Clear the original-piece flag of the tile.
    pub fn false_orig_piece(&mut self, pos_x: usize, pos_y: usize)
        requires
            old(self).inv(),
            old(self)@.in_bounds(pos_x as int, pos_y as int),
        ensures
            final(self).inv(),
            final(self).size_x == old(self).size_x,
            final(self).size_y == old(self).size_y,
            final(self)@ == old(self)@.update_tile(
                pos_x as int,
                pos_y as int,
                Tile {
                    color: old(self)@.tile(pos_x as int, pos_y as int).color,
                    is_empty: old(self)@.tile(pos_x as int, pos_y as int).is_empty,
                    piece_is_white: old(self)@.tile(pos_x as int, pos_y as int).piece_is_white,
                    has_orig_piece: false,
                },
            ),
    {
        proof {
            lemma_flat_index(self@.size_x, self@.size_y, pos_x as int, pos_y as int);
        }
        let n = self.tiles.len();
        let i = pos_x * self.size_y + pos_y;
        let mut t = self.tiles[i];
        t.has_orig_piece = false;
        self.tiles[i] = t;
        proof {
            assert(final(self)@ =~= old(self)@.update_tile(
                pos_x as int,
                pos_y as int,
                Tile {
                    color: old(self)@.tile(pos_x as int, pos_y as int).color,
                    is_empty: old(self)@.tile(pos_x as int, pos_y as int).is_empty,
                    piece_is_white: old(self)@.tile(pos_x as int, pos_y as int).piece_is_white,
                    has_orig_piece: false,
                },
            ));
        }
    }

    /// Coordinates denoted by two characters of algebraic notation: a letter
    /// (either case) for the file, a digit `1`-`9` for the rank. Anything
    /// else is malformed and yields no coordinates.
    pub fn get_coords_from_string(s: String) -> (r: Option<(usize, usize)>)
        ensures
            r == spec_coords_of(s@),
    {
        let st = s.as_str();
        if st.unicode_len() != 2 {
            return None;
        }
        let c = st.get_char(0) as u32;
        let n = st.get_char(1) as u32;
        if !(49 <= n && n <= 57) {
            return None;
        }
        if 97 <= c && c <= 122 {
            Some((((c - 97) as usize), ((n - 49) as usize)))
        } else if 65 <= c && c <= 90 {
            Some((((c - 65) as usize), ((n - 49) as usize)))
        } else {
            None
        }
    }

    /// Algebraic notation for coordinates: lower-case file letter, then rank
    /// digit.
    pub fn get_string_from_coords(x: usize, y: usize) -> (r: String)
        requires
            x < 26,
            y < 9,
        ensures
            r@.len() == 2,
            r@[0] as u32 == 97 + x,
            r@[1] as u32 == 49 + y,
            spec_coords_of(r@) == Some((x, y)),
    {
        let mut s = String::new();
        push_char(&mut s, char_from_code(97 + x as u32));
        push_char(&mut s, char_from_code(49 + y as u32));
        s
    }

    /// A deep copy of the board, used to probe a candidate move on an
    /// isolated snapshot.
    pub fn snapshot(&self) -> (r: Board)
        requires
            self.inv(),
        ensures
            r.inv(),
            r@ == self@,
            r.size_x == self.size_x,
            r.size_y == self.size_y,
    {
        let mut tiles: Vec<Tile> = Vec::new();
        let n = self.tiles.len();
        let mut i: usize = 0;
        while i < n
            invariant
                i <= n,
                n == self.tiles@.len(),
                tiles@ == self.tiles@.subrange(0, i as int),
            decreases n - i,
        {
            tiles.push(self.tiles[i]);
            proof {
                assert(tiles@ =~= self.tiles@.subrange(0, i + 1));
            }
            i = i + 1;
        }
        proof {
            assert(tiles@ =~= self.tiles@);
        }
        let r = Board { tiles, size_x: self.size_x, size_y: self.size_y };
        proof {
            assert(r@ =~= self@);
        }
        r
    }
}

} // verus!
