//! The game session: the current board plus the append-only ledger of
//! applied moves. Move application is all-or-nothing, and a session built by
//! playing moves always replays its ledger back to its current board.

use vstd::prelude::*;
use crate::board::{spec_turn, Board, Fen, Player};
use crate::engine::{fen_after_uci, fen_checkmate, fen_stalemate, fen_white_to_move, start_fen};
use crate::clock::get_unix_timestamp;

verus! {

/// One entry of the ledger: the move token that was applied, and the text of
/// the position it produced.
#[derive(Debug, Clone)]
pub struct HistoryEntry {
    pub fen: Fen,
    pub uci_move: String,
}

/// The mathematical value of a ledger entry.
pub struct RecordView {
    pub fen: Seq<char>,
    pub uci: Seq<char>,
}

impl View for HistoryEntry {
    type V = RecordView;

    open spec fn view(&self) -> RecordView {
        RecordView { fen: self.fen@, uci: self.uci_move@ }
    }
}

/// The outcome of the game, derived from the current position on demand.
#[derive(Debug, Clone, Copy, PartialEq, Eq, Structural)]
pub enum GameStatus {
    /// The game is not finished, and the game is still in play.
    Continuing,
    /// The game has the winner.
    Checkmate,
    /// The game is drawn.
    Stalemate,
}

/// The mathematical value of a session.
pub struct GameView {
    pub board: Seq<char>,
    pub history: Seq<RecordView>,
    pub date: u64,
}

/// A chess game session: current board, ledger, and creation time.
#[derive(Debug)]
pub struct Game {
    board: Board,
    history: Vec<HistoryEntry>,
    date: u64,
}

/// The outcome the rules engine derives from a position.
pub open spec fn spec_status(f: Seq<char>) -> GameStatus {
    if fen_checkmate(f) {
        GameStatus::Checkmate
    } else if fen_stalemate(f) {
        GameStatus::Stalemate
    } else {
        GameStatus::Continuing
    }
}

/// The position each ledger entry was applied in: the one the previous entry
/// produced, or the starting position for the first entry.
pub open spec fn prev_fen(h: Seq<RecordView>, i: int) -> Seq<char> {
    if i == 0 {
        start_fen()
    } else {
        h[i - 1].fen
    }
}

/// Every ledger entry records a move the engine accepted in the position the
/// ledger reached before it.
pub open spec fn chain_ok(h: Seq<RecordView>) -> bool {
    forall|i: int|
        0 <= i < h.len() ==> fen_after_uci(prev_fen(h, i), (#[trigger] h[i]).uci) == Some(h[i].fen)
}

/// Replaying tokens from a position: the position reached when every token is
/// accepted in turn, or nothing as soon as one is rejected.
pub open spec fn replay(from: Seq<char>, tokens: Seq<Seq<char>>) -> Option<Seq<char>>
    decreases tokens.len(),
{
    if tokens.len() == 0 {
        Some(from)
    } else {
        match fen_after_uci(from, tokens[0]) {
            Some(next) => replay(next, tokens.subrange(1, tokens.len() as int)),
            None => None,
        }
    }
}

impl View for Game {
    type V = GameView;

    closed spec fn view(&self) -> GameView {
        GameView {
            board: self.board@,
            history: self.history@.map_values(|e: HistoryEntry| e@),
            date: self.date,
        }
    }
}

impl Game {
    /// The board always holds an engine-printed position text with no
    /// capturable king.
    pub open spec fn inv(&self) -> bool {
        crate::engine::valid_fen(self@.board)
    }

    /// A session reached from a fresh game by successful moves alone: the
    /// ledger chains from the starting position, and the current board is the
    /// position the last entry produced.
    pub open spec fn wf(&self) -> bool {
        &&& self.inv()
        &&& chain_ok(self@.history)
        &&& self@.board == prev_fen(self@.history, self@.history.len() as int)
    }

    /// A fresh game: starting position with White to move and the game still
    /// in play, empty ledger, stamped with the current time.
    pub fn default() -> (r: Self)
        ensures
            r@.board == start_fen(),
            r@.history.len() == 0,
            r.inv(),
            r.wf(),
            crate::board::spec_turn(r@.board) == Player::White,
            spec_status(r@.board) == GameStatus::Continuing,
    {
        let r = Game { board: Board::default(), history: Vec::new(), date: get_unix_timestamp(None) };
        proof {
            assert(r@.history =~= Seq::<RecordView>::empty());
        }
        r
    }

    /// Applies the move named by the token. On success the board is replaced
    /// by the position the engine produced, with the side to move flipped,
    /// and one entry is appended to the ledger; on failure — the engine
    /// rejects the token, or a move counter stands at the edge of the
    /// engine's machine types — the session is left unchanged.
    pub fn make_move(&mut self, uci_move: &str) -> (r: bool)
        requires
            old(self).inv(),
        ensures
            final(self).inv(),
            r == (crate::fen::fen_counters_roomy(old(self)@.board) && fen_after_uci(
                old(self)@.board,
                uci_move@,
            ) is Some),
            r ==> fen_after_uci(old(self)@.board, uci_move@) == Some(final(self)@.board),
            r ==> crate::board::spec_turn(final(self)@.board) != crate::board::spec_turn(
                old(self)@.board,
            ),
            r ==> final(self)@.history == old(self)@.history.push(
                RecordView { fen: final(self)@.board, uci: uci_move@ },
            ),
            !r ==> final(self)@ == old(self)@,
            final(self)@.date == old(self)@.date,
            old(self).wf() ==> final(self).wf(),
    {
        let next = self.board.make_move(uci_move);
        match next {
            Some(b) => {
                let entry_fen = b.to_fen();
                self.board = b;
                self.history.push(HistoryEntry { fen: entry_fen, uci_move: uci_move.to_owned() });
                proof {
                    let oldh = old(self)@.history;
                    let newh = self@.history;
                    assert(newh =~= oldh.push(
                        RecordView { fen: self@.board, uci: uci_move@ },
                    ));
                    if old(self).wf() {
                        assert forall|i: int| 0 <= i < newh.len() implies fen_after_uci(
                            prev_fen(newh, i),
                            (#[trigger] newh[i]).uci,
                        ) == Some(newh[i].fen) by {
                            if i < oldh.len() {
                                assert(newh[i] == oldh[i]);
                                if i > 0 {
                                    assert(newh[i - 1] == oldh[i - 1]);
                                }
                            } else {
                                assert(i == oldh.len());
                                assert(prev_fen(newh, i) == old(self)@.board);
                            }
                        }
                    }
                }
                true
            },
            None => false,
        }
    }

    /// The player whose turn it is.
    pub fn current_turn(&self) -> (r: Player)
        requires
            self.inv(),
        ensures
            r == spec_turn(self@.board),
    {
        self.board.current_turn()
    }

    /// The outcome of the game, recomputed from the current position on every
    /// call; on checkmate every token is rejected. A stalemate reported when
    /// the engine's fifty-move counter has run out does not by itself reject
    /// moves.
    pub fn status(&self) -> (r: GameStatus)
        requires
            self.inv(),
        ensures
            r == spec_status(self@.board),
            r == GameStatus::Checkmate ==> forall|u: Seq<char>|
                fen_after_uci(self@.board, u) is None,
    {
        if self.board.is_checkmate() {
            return GameStatus::Checkmate;
        }
        if self.board.is_stalemate() {
            return GameStatus::Stalemate;
        }
        GameStatus::Continuing
    }

    /// The most recent move token, or nothing when no move was applied yet.
    pub fn last_move(&self) -> (r: Option<String>)
        ensures
            match r {
                Some(s) => self@.history.len() > 0 && s@ == self@.history.last().uci,
                None => self@.history.len() == 0,
            },
    {
        if self.history.len() > 0 {
            let e = &self.history[self.history.len() - 1];
            Some(e.uci_move.clone())
        } else {
            None
        }
    }

    /// The grid rendering of the current board, for diagnostics.
    pub fn board_pretty(&self) -> (r: String)
        requires
            self.inv(),
        ensures
            r@ == crate::board::spec_pretty(self@.board),
    {
        self.board.to_pretty_string()
    }

    /// The number of successfully applied moves since the session began.
    pub fn history_len(&self) -> (r: usize)
        ensures
            r == self@.history.len(),
    {
        self.history.len()
    }

    /// The current board's portable text.
    pub fn current_fen(&self) -> (r: Fen)
        ensures
            r@ == self@.board,
    {
        self.board.to_fen()
    }

    /// The creation time of the session, in whole seconds since the epoch.
    pub fn created_at(&self) -> (r: u64)
        ensures
            r == self@.date,
    {
        self.date
    }

    /// The session document: current position text, the full ledger, and the
    /// creation time, as one structured text.
    pub fn save_document(&self) -> (r: String)
        ensures
            r@ == crate::codec::ser_doc(self@.board, self@.history, self@.date),
    {
        let f = self.board.to_fen();
        crate::codec::serialize_doc(f.as_str(), &self.history, self.date)
    }

    /// Rebuilds a session from a session document. It succeeds exactly on
    /// the texts the writer produces; the position is rebuilt through
    /// `from_fen` with its fallback, the ledger is taken verbatim, and
    /// nothing checks that replaying the ledger reproduces the position.
    pub fn from_document(text: &str) -> (r: Option<Game>)
        ensures
            match r {
                Some(g) => g.inv() && exists|p: Seq<char>|
                    g@.board == crate::board::spec_from_fen(p) && text@
                        == crate::codec::ser_doc(p, g@.history, g@.date),
                None => true,
            },
            forall|b: Seq<char>, h: Seq<RecordView>, d: u64|
                text@ == crate::codec::ser_doc(b, h, d) ==> (r is Some && (r->0)@.board
                    == crate::board::spec_from_fen(b) && (r->0)@.history == h && (r->0)@.date
                    == d),
    {
        match crate::codec::parse_doc(text) {
            Some((pos, entries, date)) => {
                let ghost hv = entries@.map_values(|e: HistoryEntry| e@);
                let g = Game { board: Board::from_fen(&pos), history: entries, date };
                proof {
                    assert(g@.history == hv);
                    assert(g@.board == crate::board::spec_from_fen(pos@) && text@
                        == crate::codec::ser_doc(pos@, g@.history, g@.date));
                }
                Some(g)
            },
            None => None,
        }
    }
}

/// The tokens of a ledger, in order.
pub open spec fn tokens_of(h: Seq<RecordView>) -> Seq<Seq<char>> {
    h.map_values(|e: RecordView| e.uci)
}

proof fn lemma_replay_chain(h: Seq<RecordView>, k: int, cur: Seq<char>)
    requires
        chain_ok(h),
        0 <= k <= h.len(),
        cur == prev_fen(h, k),
    ensures
        replay(cur, tokens_of(h).subrange(k, h.len() as int)) == Some(
            prev_fen(h, h.len() as int),
        ),
    decreases h.len() - k,
{
    let ts = tokens_of(h).subrange(k, h.len() as int);
    if k == h.len() {
        assert(ts.len() == 0);
    } else {
        assert(ts[0] == h[k].uci);
        assert(fen_after_uci(cur, h[k].uci) == Some(h[k].fen));
        assert(ts.subrange(1, ts.len() as int) =~= tokens_of(h).subrange(
            k + 1,
            h.len() as int,
        ));
        lemma_replay_chain(h, k + 1, h[k].fen);
    }
}

/// Replaying the ledger of a well-formed session from the starting position
/// reproduces the current board.
pub proof fn lemma_history_replay(g: Game)
    requires
        g.wf(),
    ensures
        replay(start_fen(), tokens_of(g@.history)) == Some(g@.board),
{
    let h = g@.history;
    assert(tokens_of(h).subrange(0, h.len() as int) =~= tokens_of(h));
    lemma_replay_chain(h, 0, start_fen());
}

/// The outcome is a function of the current position alone: two computations
/// of the status of one position agree.
pub proof fn lemma_status_deterministic(a: GameStatus, b: GameStatus, f: Seq<char>)
    requires
        a == spec_status(f),
        b == spec_status(f),
    ensures
        a == b,
{
}

} // verus!
