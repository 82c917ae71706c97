//! The seam to the rules engine. Every call into `pleco` goes through one of
//! the wrappers below; the uninterpreted functions name what those calls
//! return, as a function of the position text and the move token alone.

use vstd::prelude::*;
use crate::fen::fen_strict;

verus! {

/// The portable text of the standard starting position.
pub open spec fn start_fen() -> Seq<char> {
    "rnbqkbnr/pppppppp/8/8/8/8/PPPPPPPP/RNBQKBNR w KQkq - 0 1"@
}

/// What the engine's parser and printer make of a position text: the printed
/// form of the parsed position, or nothing when the text is rejected.
pub uninterp spec fn fen_canon(text: Seq<char>) -> Option<Seq<char>>;

/// The position printed after applying the move named by the token, or
/// nothing when the token names no legal move in the position.
pub uninterp spec fn fen_after_uci(fen: Seq<char>, uci: Seq<char>) -> Option<Seq<char>>;

/// Whether the side to move in the position is checkmated.
pub uninterp spec fn fen_checkmate(fen: Seq<char>) -> bool;

/// Whether the position is a stalemate for the side to move.
pub uninterp spec fn fen_stalemate(fen: Seq<char>) -> bool;

/// Whether the white player is the side to move in the position.
pub uninterp spec fn fen_white_to_move(fen: Seq<char>) -> bool;

/// Whether the token names a move the engine validates in the position.
pub uninterp spec fn fen_uci_valid(fen: Seq<char>, uci: Seq<char>) -> bool;

/// Whether the player not to move stands with their king already attacked by
/// the side to move. The engine's move generator would then produce a king
/// capture, which its application code cannot survive; no position reached by
/// legal play has this property.
pub uninterp spec fn fen_king_exposed(fen: Seq<char>) -> bool;

/// A position text the engine itself printed: strict, and a fixed point of
/// parse-then-print.
pub open spec fn wf_fen(f: Seq<char>) -> bool {
    fen_canon(f) == Some(f) && fen_strict(f)
}

/// An engine-printed position on which every engine query and transition is
/// safe: well formed, and with no capturable king.
pub open spec fn valid_fen(f: Seq<char>) -> bool {
    wf_fen(f) && !fen_king_exposed(f)
}

/// Relies on `pleco::Board::start_pos`, `pleco::Board::fen`,
/// `pleco::Board::turn`, `pleco::Board::checkmate` and
/// `pleco::Board::stalemate`: the starting position prints as the standard
/// line, which reparses and reprints as itself; White is to move in it, it is
/// neither checkmate nor stalemate, and no king is attacked.
#[verifier::external_body]
pub fn start_fen_string() -> (r: String)
    ensures
        r@ == start_fen(),
        wf_fen(r@),
        !fen_king_exposed(r@),
        fen_white_to_move(r@),
        !fen_checkmate(r@),
        !fen_stalemate(r@),
{
    pleco::Board::start_pos().fen()
}

/// Relies on `pleco::Board::attackers_to`, `pleco::Board::king_sq`,
/// `pleco::Board::occupied` and `pleco::Board::get_occupied_player`: whether
/// any piece of the side to move attacks the square of the opposing king.
#[verifier::external_body]
pub fn king_exposed_fen(fen: &str) -> (r: bool)
    requires
        wf_fen(fen@),
    ensures
        r == fen_king_exposed(fen@),
{
    match pleco::Board::from_fen(fen) {
        Ok(b) => {
            let us = b.turn();
            let their_king = b.king_sq(us.other_player());
            (b.attackers_to(their_king, b.occupied()) & b.get_occupied_player(us)).is_not_empty()
        },
        Err(_) => false,
    }
}

/// Relies on `pleco::Board::from_fen` and `pleco::Board::fen`: parsing a
/// strict text either fails, or yields a position whose printed form reparses
/// and reprints as itself.
#[verifier::external_body]
pub fn parse_fen_canon(text: &str) -> (r: Option<String>)
    requires
        fen_strict(text@),
    ensures
        match r {
            Some(c) => fen_canon(text@) == Some(c@) && wf_fen(c@),
            None => fen_canon(text@) is None,
        },
{
    match pleco::Board::from_fen(text) {
        Ok(b) => Some(b.fen()),
        Err(_) => None,
    }
}

/// Relies on `pleco::Board::apply_uci_move`: it applies the move the token
/// names when that move is in the legal move list, and reports failure
/// otherwise. The resulting position prints as an engine-printed text, the
/// side to move has flipped, and — since only legal moves are applied — the
/// mover's king is left unattacked. The counter headroom in `requires` keeps
/// the engine's two move counters inside their machine types for the one
/// increment the application performs.
#[verifier::external_body]
pub fn apply_uci_fen(fen: &str, uci: &str) -> (r: Option<String>)
    requires
        valid_fen(fen@),
        crate::fen::fen_counters_roomy(fen@),
    ensures
        match r {
            Some(next) => fen_after_uci(fen@, uci@) == Some(next@) && wf_fen(next@)
                && !fen_king_exposed(next@) && fen_white_to_move(next@) == !fen_white_to_move(
                fen@,
            ),
            None => fen_after_uci(fen@, uci@) is None,
        },
{
    match pleco::Board::from_fen(fen) {
        Ok(mut b) => if b.apply_uci_move(uci) {
            Some(b.fen())
        } else {
            None
        },
        Err(_) => None,
    }
}

/// Relies on `pleco::Board::checkmate`: true exactly when the side to move is
/// in check with no legal move, in which case `apply_uci_move` fails for
/// every token.
#[verifier::external_body]
pub fn checkmate_fen(fen: &str) -> (r: bool)
    requires
        wf_fen(fen@),
    ensures
        r == fen_checkmate(fen@),
        r ==> forall|u: Seq<char>| fen_after_uci(fen@, u) is None,
{
    match pleco::Board::from_fen(fen) {
        Ok(b) => b.checkmate(),
        Err(_) => false,
    }
}

/// Relies on `pleco::Board::stalemate`: true exactly when the side to move is
/// not in check and either no legal move exists or the fifty-move counter has
/// run out.
#[verifier::external_body]
pub fn stalemate_fen(fen: &str) -> (r: bool)
    requires
        wf_fen(fen@),
    ensures
        r == fen_stalemate(fen@),
{
    match pleco::Board::from_fen(fen) {
        Ok(b) => b.stalemate(),
        Err(_) => false,
    }
}

/// Relies on `pleco::Board::turn`: the side to move recorded in the position.
#[verifier::external_body]
pub fn white_to_move_fen(fen: &str) -> (r: bool)
    requires
        wf_fen(fen@),
    ensures
        r == fen_white_to_move(fen@),
{
    match pleco::Board::from_fen(fen) {
        Ok(b) => b.turn() == pleco::Player::White,
        Err(_) => true,
    }
}

/// Relies on `pleco::Board::generate_moves`, `BitMove::stringify`,
/// `pleco::Board::pseudo_legal_move` and `pleco::Board::legal_move`: a token
/// is validated when it names a generated legal move that passes both
/// checks, and a generated move is one that `apply_uci_move` would apply, so
/// validation implies acceptance. The converse — that every generated move
/// also passes the two queries — is not promised by the engine's own
/// documentation, so only the one direction is stated.
#[verifier::external_body]
pub fn uci_valid_fen(fen: &str, uci: &str) -> (r: bool)
    requires
        wf_fen(fen@),
    ensures
        r == fen_uci_valid(fen@, uci@),
        r ==> fen_after_uci(fen@, uci@) is Some,
{
    match pleco::Board::from_fen(fen) {
        Ok(b) => match b.generate_moves().iter().find(|m| m.stringify() == uci) {
            Some(m) => b.pseudo_legal_move(*m) && b.legal_move(*m),
            None => false,
        },
        Err(_) => false,
    }
}

#[verifier::external_type_specification]
#[verifier::external_body]
pub struct ExBitMove(pleco::core::piece_move::BitMove);

/// Relies on `pleco::Board::generate_moves` and `BitMove::stringify`: the
/// engine's move value whose token matches, found exactly when
/// `apply_uci_move` would apply one.
#[verifier::external_body]
pub fn move_from_uci_fen(fen: &str, uci: &str) -> (r: Option<pleco::core::piece_move::BitMove>)
    requires
        wf_fen(fen@),
    ensures
        r is Some <==> fen_after_uci(fen@, uci@) is Some,
{
    match pleco::Board::from_fen(fen) {
        Ok(b) => b.generate_moves().iter().find(|m| m.stringify() == uci).cloned(),
        Err(_) => None,
    }
}

} // verus!
