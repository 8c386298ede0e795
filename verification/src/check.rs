//! Check detection: whether a side's King is attacked on the current board,
//! including the flying-general rule.

use vstd::prelude::*;

use crate::board::{
    at_pos, at_rc, cells_eye_to_eye, king_scan, spec_in_board, Board, Chess, ChessType, Player,
    Position,
};
use crate::movegen::{cannon_target, rook_target, spec_is_target};

verus! {

/// Whether the square at integer coordinates holds `player`'s piece of kind `ct`.
pub open spec fn piece_at(
    cells: Seq<Seq<Chess>>,
    r: int,
    c: int,
    player: Player,
    ct: ChessType,
) -> bool {
    at_rc(cells, r, c).spec_belong_to(player) && at_rc(cells, r, c).spec_chess_type() == Some(ct)
}

/// An enemy Cannon gives check from any square it could capture the King on:
/// aligned with exactly one screen between.
pub open spec fn cannon_checks(cells: Seq<Seq<Chess>>, king: Position, player: Player) -> bool {
    exists|p: Position|
        #![trigger at_pos(cells, p)]
        cannon_target(cells, king, p) && at_pos(cells, p).spec_belong_to(player.spec_next())
            && at_pos(cells, p).spec_chess_type() == Some(ChessType::Cannon)
}

/// An enemy Rook gives check from any aligned square with a clear path.
pub open spec fn rook_checks(cells: Seq<Seq<Chess>>, king: Position, player: Player) -> bool {
    exists|p: Position|
        #![trigger at_pos(cells, p)]
        rook_target(cells, king, p) && at_pos(cells, p).spec_belong_to(player.spec_next())
            && at_pos(cells, p).spec_chess_type() == Some(ChessType::Rook)
}

/// An enemy Knight gives check from the eight L-shaped squares, each blocked
/// by the leg square diagonally adjacent to the King on that side.
pub open spec fn knight_checks(cells: Seq<Seq<Chess>>, king: Position, player: Player) -> bool {
    let e = player.spec_next();
    let r = king.row as int;
    let c = king.col as int;
    ||| (at_rc(cells, r - 1, c - 1) == Chess::Empty && (piece_at(
        cells,
        r - 2,
        c - 1,
        e,
        ChessType::Knight,
    ) || piece_at(cells, r - 1, c - 2, e, ChessType::Knight)))
    ||| (at_rc(cells, r + 1, c - 1) == Chess::Empty && (piece_at(
        cells,
        r + 2,
        c - 1,
        e,
        ChessType::Knight,
    ) || piece_at(cells, r + 1, c - 2, e, ChessType::Knight)))
    ||| (at_rc(cells, r - 1, c + 1) == Chess::Empty && (piece_at(
        cells,
        r - 2,
        c + 1,
        e,
        ChessType::Knight,
    ) || piece_at(cells, r - 1, c + 2, e, ChessType::Knight)))
    ||| (at_rc(cells, r + 1, c + 1) == Chess::Empty && (piece_at(
        cells,
        r + 2,
        c + 1,
        e,
        ChessType::Knight,
    ) || piece_at(cells, r + 1, c + 2, e, ChessType::Knight)))
}

/// An enemy Pawn gives check from beside the King or from the square one
/// step toward the King's own base row.
pub open spec fn pawn_checks(cells: Seq<Seq<Chess>>, king: Position, player: Player) -> bool {
    let e = player.spec_next();
    let r = king.row as int;
    let c = king.col as int;
    ||| piece_at(cells, r, c - 1, e, ChessType::Pawn)
    ||| piece_at(cells, r, c + 1, e, ChessType::Pawn)
    ||| (player == Player::Red && piece_at(cells, r - 1, c, e, ChessType::Pawn))
    ||| (player == Player::Black && piece_at(cells, r + 1, c, e, ChessType::Pawn))
}

/// Whether `player`'s King is attacked on a grid, regardless of whose turn
/// it is. A grid without that King is not in check.
pub open spec fn cells_checked(cells: Seq<Seq<Chess>>, player: Player) -> bool {
    match king_scan(cells, player, 0) {
        Some(king) => {
            ||| cannon_checks(cells, king, player)
            ||| rook_checks(cells, king, player)
            ||| knight_checks(cells, king, player)
            ||| pawn_checks(cells, king, player)
            ||| cells_eye_to_eye(cells)
        },
        None => false,
    }
}

impl Board {
    /// Whether `player`'s King is attacked on the current board, regardless
    /// of whose turn it is. A board without that King is not in check.
    pub open spec fn spec_is_checked(self, player: Player) -> bool {
        cells_checked(self.cells(), player)
    }

    /// Whether `player`'s King is attacked: by a Cannon or Rook running its
    /// own pattern outward from the King, a Knight behind an open leg, an
    /// adjacent Pawn, or the bare facing of the two Kings.
    pub fn is_checked(&self, player: Player) -> (r: bool)
        ensures
            r == self.spec_is_checked(player),
    {
        let position_base = match self.king_position(player) {
            Some(p) => p,
            None => {
                return false;
            },
        };
        let enemy = player.next();

        let targets = self.generate_move_for_chess_type(ChessType::Cannon, position_base);
        let mut k: usize = 0;
        while k < targets.len()
            invariant
                k <= targets.len(),
                enemy == player.spec_next(),
                self.spec_king_position(player) == Some(position_base),
                forall|t: Position| #![trigger targets@.contains(t)]
                    targets@.contains(t) <==> spec_is_target(
                        self@,
                        ChessType::Cannon,
                        position_base,
                        t,
                    ),
                forall|u: int|
                    0 <= u < k ==> !(at_pos(self.cells(), targets@[u]).spec_belong_to(
                        player.spec_next(),
                    ) && at_pos(self.cells(), targets@[u]).spec_chess_type() == Some(
                        ChessType::Cannon,
                    )),
            decreases targets.len() - k,
        {
            let pos = targets[k];
            if self.chess_at(pos).belong_to(enemy) {
                if let Some(ChessType::Cannon) = self.chess_at(pos).chess_type() {
                    proof {
                        assert(targets@.contains(pos)) by {
                            assert(targets@[k as int] == pos);
                        }
                        assert(cannon_checks(self.cells(), position_base, player)) by {
                            assert(cannon_target(self.cells(), position_base, pos) && at_pos(
                                self.cells(),
                                pos,
                            ).spec_belong_to(player.spec_next()) && at_pos(
                                self.cells(),
                                pos,
                            ).spec_chess_type() == Some(ChessType::Cannon));
                        }
                    }
                    return true;
                }
            }
            k = k + 1;
        }
        proof {
            assert(!cannon_checks(self.cells(), position_base, player)) by {
                assert forall|p: Position|
                    !(cannon_target(self.cells(), position_base, p) && at_pos(
                        self.cells(),
                        p,
                    ).spec_belong_to(player.spec_next()) && #[trigger] at_pos(
                        self.cells(),
                        p,
                    ).spec_chess_type() == Some(ChessType::Cannon)) by {
                    if cannon_target(self.cells(), position_base, p) {
                        assert(targets@.contains(p));
                        let u = choose|u: int| 0 <= u < targets@.len() && targets@[u] == p;
                        assert(!(at_pos(self.cells(), targets@[u]).spec_belong_to(
                            player.spec_next(),
                        ) && at_pos(self.cells(), targets@[u]).spec_chess_type() == Some(
                            ChessType::Cannon,
                        )));
                    }
                }
            }
        }

        let targets = self.generate_move_for_chess_type(ChessType::Rook, position_base);
        let mut k: usize = 0;
        while k < targets.len()
            invariant
                k <= targets.len(),
                enemy == player.spec_next(),
                self.spec_king_position(player) == Some(position_base),
                forall|t: Position| #![trigger targets@.contains(t)]
                    targets@.contains(t) <==> spec_is_target(
                        self@,
                        ChessType::Rook,
                        position_base,
                        t,
                    ),
                forall|u: int|
                    0 <= u < k ==> !(at_pos(self.cells(), targets@[u]).spec_belong_to(
                        player.spec_next(),
                    ) && at_pos(self.cells(), targets@[u]).spec_chess_type() == Some(
                        ChessType::Rook,
                    )),
            decreases targets.len() - k,
        {
            let pos = targets[k];
            if self.chess_at(pos).belong_to(enemy) {
                if let Some(ChessType::Rook) = self.chess_at(pos).chess_type() {
                    proof {
                        assert(targets@.contains(pos)) by {
                            assert(targets@[k as int] == pos);
                        }
                        assert(rook_checks(self.cells(), position_base, player)) by {
                            assert(rook_target(self.cells(), position_base, pos) && at_pos(
                                self.cells(),
                                pos,
                            ).spec_belong_to(player.spec_next()) && at_pos(
                                self.cells(),
                                pos,
                            ).spec_chess_type() == Some(ChessType::Rook));
                        }
                    }
                    return true;
                }
            }
            k = k + 1;
        }
        proof {
            assert(!rook_checks(self.cells(), position_base, player)) by {
                assert forall|p: Position|
                    !(rook_target(self.cells(), position_base, p) && at_pos(
                        self.cells(),
                        p,
                    ).spec_belong_to(player.spec_next()) && #[trigger] at_pos(
                        self.cells(),
                        p,
                    ).spec_chess_type() == Some(ChessType::Rook)) by {
                    if rook_target(self.cells(), position_base, p) {
                        assert(targets@.contains(p));
                        let u = choose|u: int| 0 <= u < targets@.len() && targets@[u] == p;
                        assert(!(at_pos(self.cells(), targets@[u]).spec_belong_to(
                            player.spec_next(),
                        ) && at_pos(self.cells(), targets@[u]).spec_chess_type() == Some(
                            ChessType::Rook,
                        )));
                    }
                }
            }
        }

        let base = position_base;
        if self.chess_at(base.up(1).left(1)) == Chess::Empty {
            if self.knight_of(enemy, base.up(2).left(1)) || self.knight_of(enemy, base.up(1).left(2))
            {
                return true;
            }
        }
        if self.chess_at(base.down(1).left(1)) == Chess::Empty {
            if self.knight_of(enemy, base.down(2).left(1)) || self.knight_of(
                enemy,
                base.down(1).left(2),
            ) {
                return true;
            }
        }
        if self.chess_at(base.up(1).right(1)) == Chess::Empty {
            if self.knight_of(enemy, base.up(2).right(1)) || self.knight_of(
                enemy,
                base.up(1).right(2),
            ) {
                return true;
            }
        }
        if self.chess_at(base.down(1).right(1)) == Chess::Empty {
            if self.knight_of(enemy, base.down(2).right(1)) || self.knight_of(
                enemy,
                base.down(1).right(2),
            ) {
                return true;
            }
        }

        if self.pawn_of(enemy, base.left(1)) {
            return true;
        }
        if self.pawn_of(enemy, base.right(1)) {
            return true;
        }
        if player == Player::Red {
            if self.pawn_of(enemy, base.up(1)) {
                return true;
            }
        } else {
            if self.pawn_of(enemy, base.down(1)) {
                return true;
            }
        }

        self.king_eye_to_eye()
    }

    /// Whether the square at `pos` holds `player`'s Knight.
    fn knight_of(&self, player: Player, pos: Position) -> (r: bool)
        ensures
            r == piece_at(self.cells(), pos.row as int, pos.col as int, player, ChessType::Knight),
    {
        let chess = self.chess_at(pos);
        chess.belong_to(player) && match chess.chess_type() {
            Some(ChessType::Knight) => true,
            _ => false,
        }
    }

    /// Whether the square at `pos` holds `player`'s Pawn.
    fn pawn_of(&self, player: Player, pos: Position) -> (r: bool)
        ensures
            r == piece_at(self.cells(), pos.row as int, pos.col as int, player, ChessType::Pawn),
    {
        let chess = self.chess_at(pos);
        chess.belong_to(player) && match chess.chess_type() {
            Some(ChessType::Pawn) => true,
            _ => false,
        }
    }
}

} // verus!
