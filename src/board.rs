use crate::piece::{copied, Piece};
use crate::protocol::Command;
use either::Either;
use std::collections::HashMap;
use vstd::arithmetic::div_mod::lemma_fundamental_div_mod;
use vstd::prelude::*;

verus! {

broadcast use vstd::std_specs::hash::group_hash_axioms;

/// Declares either::Either, whose two public variants `Left(L)` and
/// `Right(R)` carry one value each.
#[verifier::external_type_specification]
#[verifier::reject_recursive_types(L)]
#[verifier::reject_recursive_types(R)]
pub struct ExEither<L, R>(Either<L, R>);

/// Width of one column of packed cell keys: 2^64.
const COLUMN: i128 = 0x1_0000_0000_0000_0000;

/// Offset that moves a `y` coordinate into `0..COLUMN`: 2^63.
const HALF: i128 = 0x8000_0000_0000_0000;

/// A sparse, unbounded grid of placed pieces.
#[derive(Debug)]
pub struct Board {
    inner: HashMap<i128, Piece>,
}

/// A cell of the grid.
#[derive(Debug, Clone, Copy, PartialEq, Eq, Hash, Structural)]
pub struct Position {
    x: i64,
    y: i64,
}

/// Both coordinates of a cell fit in `i64`.
pub open spec fn in_grid(c: (int, int)) -> bool {
    i64::MIN <= c.0 <= i64::MAX && i64::MIN <= c.1 <= i64::MAX
}

/// The packed key of a cell: `x` selects a column of `2^64` keys and `y`
/// an offset in it. Every `i128` is the key of exactly one cell.
pub open spec fn pack(c: (int, int)) -> int {
    c.0 * 0x1_0000_0000_0000_0000 + c.1 + 0x8000_0000_0000_0000
}

/// The cell whose packed key is `k`.
pub open spec fn unpack(k: int) -> (int, int) {
    (k / 0x1_0000_0000_0000_0000, k % 0x1_0000_0000_0000_0000 - 0x8000_0000_0000_0000)
}

proof fn lemma_pack_range(c: (int, int))
    requires
        in_grid(c),
    ensures
        i128::MIN <= pack(c) <= i128::MAX,
        unpack(pack(c)) == c,
{
    let b: int = 0x1_0000_0000_0000_0000;
    let u: int = c.1 + 0x8000_0000_0000_0000;
    assert(0 <= u < b);
    assert(-0x8000_0000_0000_0000 * b <= c.0 * b <= 0x7fff_ffff_ffff_ffff * b) by (nonlinear_arith)
        requires
            -0x8000_0000_0000_0000 <= c.0 <= 0x7fff_ffff_ffff_ffff,
            b == 0x1_0000_0000_0000_0000,
    ;
    assert((c.0 * b + u) / b == c.0 && (c.0 * b + u) % b == u) by (nonlinear_arith)
        requires
            0 <= u < b,
            b == 0x1_0000_0000_0000_0000,
    {
        vstd::arithmetic::div_mod::lemma_fundamental_div_mod_converse(c.0 * b + u, b, c.0, u);
    };
}

proof fn lemma_unpack_range(k: int)
    requires
        i128::MIN <= k <= i128::MAX,
    ensures
        in_grid(unpack(k)),
        pack(unpack(k)) == k,
{
    let b: int = 0x1_0000_0000_0000_0000;
    lemma_fundamental_div_mod(k, b);
    assert(0 <= k % b < b);
    assert(-0x8000_0000_0000_0000 <= k / b <= 0x7fff_ffff_ffff_ffff) by (nonlinear_arith)
        requires
            k == b * (k / b) + (k % b),
            0 <= k % b < b,
            b == 0x1_0000_0000_0000_0000,
            -0x8000_0000_0000_0000_0000_0000_0000_0000 <= k <= 0x7fff_ffff_ffff_ffff_ffff_ffff_ffff_ffff,
    ;
}

impl View for Position {
    type V = (int, int);

    closed spec fn view(&self) -> (int, int) {
        (self.x as int, self.y as int)
    }
}

impl View for Board {
    type V = Map<(int, int), Piece>;

    /// The occupied cells and their pieces.
    closed spec fn view(&self) -> Map<(int, int), Piece> {
        Map::new(
            |c: (int, int)| in_grid(c) && self.inner@.contains_key(pack(c) as i128),
            |c: (int, int)| self.inner@[pack(c) as i128],
        )
    }
}

impl Board {
    /// What the cell `(x, y)` holds, if anything.
    pub open spec fn cell(self, x: int, y: int) -> Option<Piece> {
        if self@.contains_key((x, y)) {
            Some(self@[(x, y)])
        } else {
            None
        }
    }

    /// Whether `piece` may go on cell `c`: always on an empty board, and
    /// otherwise when it fits between the four orthogonal neighbors of `c`.
    pub open spec fn can_place(self, piece: Piece, c: (int, int)) -> bool {
        ||| self@.is_empty()
        ||| piece.spec_fits(
            self.cell(c.0, c.1 - 1),
            self.cell(c.0, c.1 + 1),
            self.cell(c.0 - 1, c.1),
            self.cell(c.0 + 1, c.1),
        )
    }

    proof fn lemma_empty(self)
        ensures
            self@.is_empty() <==> self.inner@.is_empty(),
    {
        if !self.inner@.dom().is_empty() {
            let k = choose|k: i128| self.inner@.contains_key(k);
            assert(self.inner@.contains_key(k)) by {
                assert(!(self.inner@.dom() =~= Set::<i128>::empty()));
            }
            lemma_unpack_range(k as int);
            assert(self@.dom().contains(unpack(k as int)));
            assert(!(self@.dom() =~= Set::<(int, int)>::empty()));
        } else {
            assert(self@.dom() =~= Set::<(int, int)>::empty()) by {
                assert forall|c: (int, int)| !self@.dom().contains(c) by {
                    if self@.dom().contains(c) {
                        assert(self.inner@.dom().contains(pack(c) as i128));
                    }
                }
            }
        }
    }

    proof fn lemma_update(old: Board, new: Board, c: (int, int), v: Option<Piece>)
        requires
            in_grid(c),
            match v {
                Some(p) => new.inner@ == old.inner@.insert(pack(c) as i128, p),
                None => new.inner@ == old.inner@.remove(pack(c) as i128),
            },
        ensures
            match v {
                Some(p) => new@ == old@.insert(c, p),
                None => new@ == old@.remove(c),
            },
    {
        lemma_pack_range(c);
        assert forall|d: (int, int)| in_grid(d) && pack(d) as i128 == pack(c) as i128 implies d == c by {
            lemma_pack_range(d);
        }
        match v {
            Some(p) => assert(new@ =~= old@.insert(c, p)),
            None => assert(new@ =~= old@.remove(c)),
        }
    }

    fn key(position: &Position) -> (k: i128)
        ensures
            k as int == pack(position@),
    {
        proof {
            lemma_pack_range(position@);
        }
        (position.x as i128) * COLUMN + (position.y as i128 + HALF)
    }

    fn lookup(&self, x: i64, y: i64) -> (r: Option<&Piece>)
        ensures
            copied(r) == self.cell(x as int, y as int),
    {
        let k = Self::key(&Position::new(x, y));
        proof {
            lemma_pack_range((x as int, y as int));
        }
        self.inner.get(&k)
    }

    pub fn new() -> (r: Self)
        ensures
            r@ == Map::<(int, int), Piece>::empty(),
    {
        let r = Board { inner: HashMap::new() };
        assert(r@ =~= Map::<(int, int), Piece>::empty());
        r
    }

    /// The piece on `position`, if any.
    pub fn get(&self, position: &Position) -> (r: Option<&Piece>)
        ensures
            copied(r) == self.cell(position@.0, position@.1),
    {
        self.lookup(position.x, position.y)
    }

    /// Places `piece` on `position` when the placement rule allows it, and
    /// reports whether it did. A refused placement leaves the board as it was.
    pub fn place(&mut self, piece: Piece, position: Position) -> (r: bool)
        ensures
            r == old(self).can_place(piece, position@),
            final(self)@ == if r {
                old(self)@.insert(position@, piece)
            } else {
                old(self)@
            },
    {
        proof {
            self.lemma_empty();
        }
        if self.inner.is_empty() {
            let k = Self::key(&position);
            self.inner.insert(k, piece);
            proof {
                Self::lemma_update(*old(self), *self, position@, Some(piece));
            }
            return true;
        }
        let x = position.x;
        let y = position.y;
        let up = match y.checked_sub(1) {
            Some(y1) => self.lookup(x, y1),
            None => None,
        };
        let down = match y.checked_add(1) {
            Some(y1) => self.lookup(x, y1),
            None => None,
        };
        let left = match x.checked_sub(1) {
            Some(x1) => self.lookup(x1, y),
            None => None,
        };
        let right = match x.checked_add(1) {
            Some(x1) => self.lookup(x1, y),
            None => None,
        };
        if piece.fits(up, down, left, right) {
            let k = Self::key(&position);
            self.inner.insert(k, piece);
            proof {
                Self::lemma_update(*old(self), *self, position@, Some(piece));
            }
            return true;
        }
        false
    }

    /// Takes the piece off `position`, returning what was there. Neighbors
    /// are not checked again.
    pub fn remove(&mut self, position: &Position) -> (r: Option<Piece>)
        ensures
            r == old(self).cell(position@.0, position@.1),
            final(self)@ == old(self)@.remove(position@),
    {
        let k = Self::key(position);
        proof {
            lemma_pack_range(position@);
        }
        let r = self.inner.remove(&k);
        proof {
            Self::lemma_update(*old(self), *self, position@, None);
        }
        r
    }

    /// Runs a command: `Place` places a piece and gives back whether it went
    /// on the board, `State` gives back the board itself.
    pub fn execute(&mut self, command: Command) -> (r: Either<bool, &Self>)
        ensures
            match command {
                Command::Place(piece, position) => {
                    &&& r == Either::<bool, &Board>::Left(old(self).can_place(piece, position@))
                    &&& final(self)@ == if old(self).can_place(piece, position@) {
                        old(self)@.insert(position@, piece)
                    } else {
                        old(self)@
                    }
                },
                Command::State => {
                    &&& final(self)@ == old(self)@
                    &&& match r {
                        Either::Right(b) => b@ == old(self)@,
                        Either::Left(_) => false,
                    }
                },
            },
    {
        match command {
            Command::Place(piece, position) => Either::Left(self.place(piece, position)),
            Command::State => Either::Right(&*self),
        }
    }
}

impl Default for Board {
    fn default() -> (r: Self)
        ensures
            r@ == Map::<(int, int), Piece>::empty(),
    {
        Board::new()
    }
}

impl Position {
    /// The cell `(0, 0)`.
    pub fn origin() -> (r: Self)
        ensures
            r == Position::spec_new(0, 0),
            r@ == (0int, 0int),
    {
        Self { x: 0, y: 0 }
    }

    /// The cell `(x, y)`.
    pub closed spec fn spec_new(x: i64, y: i64) -> Position {
        Position { x, y }
    }

    pub fn new(x: i64, y: i64) -> (r: Self)
        ensures
            r == Position::spec_new(x, y),
            r@ == (x as int, y as int),
    {
        Self { x, y }
    }

    pub fn x(&self) -> (r: i64)
        ensures
            r as int == self@.0,
    {
        self.x
    }

    pub fn y(&self) -> (r: i64)
        ensures
            r as int == self@.1,
    {
        self.y
    }
}


/// A piece placed on an empty board is always accepted, and the board then
/// holds exactly that piece, on that cell.
pub proof fn lemma_first_place(b: Board, piece: Piece, c: (int, int))
    requires
        b@.is_empty(),
    ensures
        b.can_place(piece, c),
        b@.insert(c, piece).dom() == set![c],
        b@.insert(c, piece)[c] == piece,
{
    assert(b@.insert(c, piece).dom() =~= set![c]);
}

/// A present neighbor `n` neither equals `piece` in both shape and color
/// nor differs from it in both.
pub open spec fn legal_neighbor(piece: Piece, n: Option<Piece>) -> bool {
    n is Some ==> {
        let p = n.unwrap();
        &&& !(p.spec_shape() == piece.spec_shape() && p.spec_color() == piece.spec_color())
        &&& !(p.spec_shape() != piece.spec_shape() && p.spec_color() != piece.spec_color())
    }
}

/// Two opposite neighbors that are both present share the same attribute
/// with `piece`.
pub open spec fn same_match(piece: Piece, a: Option<Piece>, b: Option<Piece>) -> bool {
    (a is Some && b is Some) ==> (a.unwrap().spec_shape() == piece.spec_shape()
        <==> b.unwrap().spec_shape() == piece.spec_shape())
}

/// On a board that is not empty, with at least one orthogonal neighbor of
/// `c` occupied, `piece` may go on `c` exactly when no neighbor equals it in
/// both shape and color, no neighbor differs from it in both, and each pair
/// of opposite neighbors that are both present shares the same attribute
/// with it.
pub proof fn lemma_neighbor_rule(b: Board, piece: Piece, c: (int, int))
    requires
        !b@.is_empty(),
        b.cell(c.0, c.1 - 1) is Some || b.cell(c.0, c.1 + 1) is Some || b.cell(c.0 - 1, c.1) is Some
            || b.cell(c.0 + 1, c.1) is Some,
    ensures
        b.can_place(piece, c) <==> {
            let up = b.cell(c.0, c.1 - 1);
            let down = b.cell(c.0, c.1 + 1);
            let left = b.cell(c.0 - 1, c.1);
            let right = b.cell(c.0 + 1, c.1);
            &&& legal_neighbor(piece, up)
            &&& legal_neighbor(piece, down)
            &&& legal_neighbor(piece, left)
            &&& legal_neighbor(piece, right)
            &&& same_match(piece, up, down)
            &&& same_match(piece, left, right)
        },
{
}

/// On a board that is not empty, a piece with no occupied orthogonal
/// neighbor is refused.
pub proof fn lemma_isolated_refused(b: Board, piece: Piece, c: (int, int))
    requires
        !b@.is_empty(),
        b.cell(c.0, c.1 - 1) is None,
        b.cell(c.0, c.1 + 1) is None,
        b.cell(c.0 - 1, c.1) is None,
        b.cell(c.0 + 1, c.1) is None,
    ensures
        !b.can_place(piece, c),
{
}

/// Taking the piece off a cell and then placing another piece there that
/// fits between the cell's neighbors succeeds, and the cell then holds the
/// new piece.
pub proof fn lemma_replace(before: Board, after_remove: Board, piece: Piece, c: (int, int))
    requires
        after_remove@ == before@.remove(c),
        piece.spec_fits(
            before.cell(c.0, c.1 - 1),
            before.cell(c.0, c.1 + 1),
            before.cell(c.0 - 1, c.1),
            before.cell(c.0 + 1, c.1),
        ),
    ensures
        after_remove.can_place(piece, c),
        after_remove@.insert(c, piece)[c] == piece,
{
    assert(after_remove.cell(c.0, c.1 - 1) == before.cell(c.0, c.1 - 1));
    assert(after_remove.cell(c.0, c.1 + 1) == before.cell(c.0, c.1 + 1));
    assert(after_remove.cell(c.0 - 1, c.1) == before.cell(c.0 - 1, c.1));
    assert(after_remove.cell(c.0 + 1, c.1) == before.cell(c.0 + 1, c.1));
}

} // verus!
