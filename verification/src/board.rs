//! The immutable position value. A `Board` wraps the portable text of a
//! position the rules engine itself printed; every query and every transition
//! goes through the engine seam and is stated over that text.

use vstd::prelude::*;
use vstd::string::StringExecFns;
use crate::engine::{
    apply_uci_fen, checkmate_fen, fen_after_uci, fen_canon, fen_checkmate, fen_king_exposed,
    fen_stalemate, fen_uci_valid, fen_white_to_move, king_exposed_fen, parse_fen_canon,
    stalemate_fen, start_fen, start_fen_string, uci_valid_fen, valid_fen, wf_fen,
    white_to_move_fen,
};
use crate::fen::{
    digit_val, fen_counters_roomy, fen_counters_roomy_check, fen_strict, fen_strict_check,
    first_space, is_rank_digit, lemma_first_space_at, split_fields,
};

verus! {

/// A position in the portable single-line text notation.
pub type Fen = String;

/// The player whose turn it is.
#[derive(Clone, Copy, Debug, PartialEq, Eq, Structural)]
pub enum Player {
    White,
    Black,
}

/// A board state, immutable once built; transitions produce a new `Board`.
#[derive(Debug)]
pub struct Board {
    fen: String,
}

/// The side to move recorded in a position text.
pub open spec fn spec_turn(f: Seq<char>) -> Player {
    if fen_white_to_move(f) {
        Player::White
    } else {
        Player::Black
    }
}

/// What building a board from a text yields: the engine's printed form of the
/// parsed position, or the starting position when the text is rejected —
/// because it is not strict, the engine refuses it, or it leaves a king
/// already capturable.
pub open spec fn spec_from_fen(t: Seq<char>) -> Seq<char> {
    if fen_strict(t) {
        match fen_canon(t) {
            Some(c) => if !fen_king_exposed(c) {
                c
            } else {
                start_fen()
            },
            None => start_fen(),
        }
    } else {
        start_fen()
    }
}

impl View for Board {
    type V = Seq<char>;

    closed spec fn view(&self) -> Seq<char> {
        self.fen@
    }
}

impl Board {
    /// Every board holds an engine-printed position text with no capturable
    /// king.
    pub open spec fn inv(&self) -> bool {
        valid_fen(self@)
    }

    /// The starting position: White to move, neither checkmate nor
    /// stalemate.
    pub fn default() -> (r: Self)
        ensures
            r@ == start_fen(),
            r.inv(),
            fen_white_to_move(r@),
            !fen_checkmate(r@),
            !fen_stalemate(r@),
    {
        Board { fen: start_fen_string() }
    }

    /// Builds a board from a position text; a text the engine rejects, or one
    /// not in the strict form, yields the starting position instead.
    pub fn from_fen(fen: &Fen) -> (r: Self)
        ensures
            r@ == spec_from_fen(fen@),
            r.inv(),
    {
        if fen_strict_check(fen.as_str()) {
            match parse_fen_canon(fen.as_str()) {
                Some(c) => if !king_exposed_fen(c.as_str()) {
                    Board { fen: c }
                } else {
                    Self::default()
                },
                None => Self::default(),
            }
        } else {
            Self::default()
        }
    }

    /// Applies the move named by the token, yielding the next board with the
    /// side to move flipped, or nothing when the engine rejects the token or
    /// a move counter stands at the edge of the engine's machine types; this
    /// board is unchanged either way.
    pub fn make_move(&mut self, uci_move: &str) -> (r: Option<Self>)
        requires
            old(self).inv(),
        ensures
            final(self)@ == old(self)@,
            final(self).inv(),
            r is Some <==> (fen_counters_roomy(old(self)@) && fen_after_uci(
                old(self)@,
                uci_move@,
            ) is Some),
            match r {
                Some(b) => fen_after_uci(old(self)@, uci_move@) == Some(b@) && b.inv()
                    && fen_white_to_move(b@) == !fen_white_to_move(old(self)@),
                None => true,
            },
    {
        if !fen_counters_roomy_check(self.fen.as_str()) {
            return None;
        }
        match apply_uci_fen(self.fen.as_str(), uci_move) {
            Some(next) => Some(Board { fen: next }),
            None => None,
        }
    }

    /// Whether the token names a move the engine validates here; a validated
    /// token is one `make_move` accepts. That every accepted token is also
    /// validated is left unstated: the engine's documentation does not
    /// promise that its legality queries pass every move it generates.
    pub fn move_is_valid(&self, uci_move: &str) -> (r: bool)
        requires
            self.inv(),
        ensures
            r == fen_uci_valid(self@, uci_move@),
            r ==> fen_after_uci(self@, uci_move@) is Some,
    {
        uci_valid_fen(self.fen.as_str(), uci_move)
    }

    /// The engine's move value for the token, when the token names a legal
    /// move here; the engine finds one exactly when `make_move` succeeds.
    pub fn move_from_uci(&self, uci_move: &str) -> (r: Option<pleco::core::piece_move::BitMove>)
        requires
            self.inv(),
        ensures
            r is Some <==> fen_after_uci(self@, uci_move@) is Some,
    {
        crate::engine::move_from_uci_fen(self.fen.as_str(), uci_move)
    }

    /// The score of the position for the side to move; not yet evaluated.
    pub fn score(&self) -> (r: i32)
        ensures
            r == 0,
    {
        0
    }

    /// Whether the side to move is checkmated; if so, every token is
    /// rejected.
    pub fn is_checkmate(&self) -> (r: bool)
        requires
            self.inv(),
        ensures
            r == fen_checkmate(self@),
            r ==> forall|u: Seq<char>| fen_after_uci(self@, u) is None,
    {
        checkmate_fen(self.fen.as_str())
    }

    /// Whether the position is a stalemate for the side to move.
    pub fn is_stalemate(&self) -> (r: bool)
        requires
            self.inv(),
        ensures
            r == fen_stalemate(self@),
    {
        stalemate_fen(self.fen.as_str())
    }

    /// The player whose turn it is.
    pub fn current_turn(&self) -> (r: Player)
        requires
            self.inv(),
        ensures
            r == spec_turn(self@),
    {
        if white_to_move_fen(self.fen.as_str()) {
            Player::White
        } else {
            Player::Black
        }
    }

    /// The portable text of this position.
    pub fn to_fen(&self) -> (r: Fen)
        ensures
            r@ == self@,
    {
        self.fen.clone()
    }

    /// A deterministic grid rendering of the position for diagnostics: eight
    /// ranks from the top, each with its rank label, occupied squares shown
    /// by their piece letters and empty ones by a dash, then the file labels.
    pub fn to_pretty_string(&self) -> (r: String)
        requires
            self.inv(),
        ensures
            r@ == spec_pretty(self@),
    {
        let v = crate::text::string_to_chars(self.fen.as_str());
        let mut j: usize = 0;
        while j < v.len() && v[j] != ' '
            invariant
                j <= v@.len(),
                forall|k: int| 0 <= k < j ==> v@[k] != ' ',
            decreases v@.len() - j,
        {
            j = j + 1;
        }
        proof {
            lemma_first_space_at(v@, j as int);
        }
        let placement = crate::fen::copy_range(&v, 0, j);
        let cells = expand_exec(&placement);
        proof {
            let fs = first_space(self@) as int;
            assert(fs <= self@.len()) by {
                crate::fen::lemma_first_space_le(self@);
            }
            assert(fs < self@.len()) by {
                if fs >= self@.len() {
                    assert(split_fields(self@) == seq![self@]);
                }
            }
            assert(split_fields(self@)[0] == self@.subrange(0, fs));
            assert(placement@ == self@.subrange(0, fs));
            lemma_expand_len(placement@, 0, 0, 0, 0);
            assert(cells@.len() == 64);
        }
        let mut out: Vec<char> = Vec::new();
        proof {
            assert(Seq::<char>::empty() + rows_body(cells@, 0) =~= rows_body(cells@, 0));
        }
        let mut r: usize = 0;
        while r < 8
            invariant
                r <= 8,
                cells@.len() == 64,
                rows_body(cells@, 0) == out@ + rows_body(cells@, r as int),
            decreases 8 - r,
    {
            let ghost row_rest = rows_body(cells@, r as int);
            out.push(rank_label_exec(r));
            out.push(' ');
            out.push('|');
            out.push(' ');
            proof {
                assert(row_rest == seq![rank_label(r as int), ' ', '|', ' '] + row_cols(
                    cells@,
                    r as int,
                    0,
                ) + rows_body(cells@, r as int + 1));
                assert(rows_body(cells@, 0) =~= out@ + row_cols(cells@, r as int, 0) + rows_body(
                    cells@,
                    r as int + 1,
                ));
            }
            let mut c: usize = 0;
            while c < 8
                invariant
                    c <= 8,
                    r < 8,
                    cells@.len() == 64,
                    rows_body(cells@, 0) == out@ + row_cols(cells@, r as int, c as int)
                        + rows_body(cells@, r as int + 1),
                decreases 8 - c,
            {
                out.push(cells[8 * r + c]);
                out.push(' ');
                proof {
                    assert(row_cols(cells@, r as int, c as int) == seq![
                        cells@[8 * (r as int) + c as int],
                        ' ',
                    ] + row_cols(cells@, r as int, c as int + 1));
                    assert(rows_body(cells@, 0) =~= out@ + row_cols(
                        cells@,
                        r as int,
                        c as int + 1,
                    ) + rows_body(cells@, r as int + 1));
                }
                c = c + 1;
            }
            out.push('\n');
            proof {
                assert(row_cols(cells@, r as int, 8) == seq!['\n']);
                assert(rows_body(cells@, 0) =~= out@ + rows_body(cells@, r as int + 1));
            }
            r = r + 1;
        }
        proof {
            assert(rows_body(cells@, 8) == Seq::<char>::empty());
            assert(out@ =~= rows_body(cells@, 0));
        }
        let body = crate::text::chars_to_string(&out);
        body.concat("  ------------------\n    a b c d e f g h")
    }
}

/// An empty run of squares.
pub open spec fn blanks(n: nat) -> Seq<char> {
    Seq::new(n, |i| '-')
}

/// The sixty-four squares a placement field describes, top rank first, a dash
/// for each empty square.
pub open spec fn expand_placement(p: Seq<char>) -> Seq<char>
    decreases p.len(),
{
    if p.len() == 0 {
        Seq::empty()
    } else {
        let rest = p.subrange(1, p.len() as int);
        if p[0] == '/' {
            expand_placement(rest)
        } else if is_rank_digit(p[0]) {
            blanks(digit_val(p[0]) as nat) + expand_placement(rest)
        } else {
            seq![p[0]] + expand_placement(rest)
        }
    }
}

proof fn lemma_expand_len(p: Seq<char>, ranks: int, cur: int, wk: int, bk: int)
    requires
        crate::fen::placement_scan(p, ranks, cur, wk, bk),
    ensures
        expand_placement(p).len() == (7 - ranks) * 8 + (8 - cur),
    decreases p.len(),
{
    if p.len() > 0 {
        let rest = p.subrange(1, p.len() as int);
        if p[0] == '/' {
            lemma_expand_len(rest, ranks + 1, 0, wk, bk);
        } else if is_rank_digit(p[0]) {
            lemma_expand_len(rest, ranks, cur + digit_val(p[0]), wk, bk);
        } else {
            lemma_expand_len(
                rest,
                ranks,
                cur + 1,
                if p[0] == 'K' { wk + 1 } else { wk },
                if p[0] == 'k' { bk + 1 } else { bk },
            );
        }
    }
}

/// The label of the given row, counted from the top of the grid.
pub open spec fn rank_label(r: int) -> char {
    if r == 0 { '8' } else if r == 1 { '7' } else if r == 2 { '6' } else if r == 3 { '5' }
    else if r == 4 { '4' } else if r == 5 { '3' } else if r == 6 { '2' } else { '1' }
}

fn rank_label_exec(r: usize) -> (c: char)
    ensures
        c == rank_label(r as int),
{
    if r == 0 { '8' } else if r == 1 { '7' } else if r == 2 { '6' } else if r == 3 { '5' }
    else if r == 4 { '4' } else if r == 5 { '3' } else if r == 6 { '2' } else { '1' }
}

/// One row of the grid from the given column on: each square's letter then a
/// space, closed by a line break.
pub open spec fn row_cols(cells: Seq<char>, r: int, c: int) -> Seq<char>
    decreases 8 - c,
{
    if c >= 8 {
        seq!['\n']
    } else {
        seq![cells[8 * r + c], ' '] + row_cols(cells, r, c + 1)
    }
}

/// The grid rows from the given row on.
pub open spec fn rows_body(cells: Seq<char>, r: int) -> Seq<char>
    decreases 8 - r,
{
    if r >= 8 {
        Seq::empty()
    } else {
        seq![rank_label(r), ' ', '|', ' '] + row_cols(cells, r, 0) + rows_body(cells, r + 1)
    }
}

/// The closing rule and file labels of the grid.
pub open spec fn board_footer() -> Seq<char> {
    "  ------------------\n    a b c d e f g h"@
}

/// The full grid rendering of a position text.
pub open spec fn spec_pretty(f: Seq<char>) -> Seq<char> {
    rows_body(expand_placement(f.subrange(0, first_space(f) as int)), 0) + board_footer()
}

fn expand_exec(p: &Vec<char>) -> (r: Vec<char>)
    ensures
        r@ == expand_placement(p@),
{
    let mut cells: Vec<char> = Vec::new();
    let mut i: usize = 0;
    proof {
        assert(p@.subrange(0, p@.len() as int) == p@);
        assert(Seq::<char>::empty() + expand_placement(p@) =~= expand_placement(p@));
    }
    while i < p.len()
        invariant
            i <= p@.len(),
            expand_placement(p@) == cells@ + expand_placement(
                p@.subrange(i as int, p@.len() as int),
            ),
        decreases p@.len() - i,
    {
        let ghost rem = p@.subrange(i as int, p@.len() as int);
        proof {
            assert(rem[0] == p@[i as int]);
            assert(rem.subrange(1, rem.len() as int) =~= p@.subrange(
                i as int + 1,
                p@.len() as int,
            ));
        }
        let c = p[i];
        let cu = c as u32;
        if c == '/' {
        } else if 49 <= cu && cu <= 56 {
            let d = cu - 48;
            let ghost before = cells@;
            let mut k: u32 = 0;
            while k < d
                invariant
                    k <= d,
                    d == digit_val(p@[i as int]),
                    cells@ == before + blanks(k as nat),
                decreases d - k,
            {
                cells.push('-');
                proof {
                    assert(before + blanks(k as nat + 1) =~= (before + blanks(k as nat)).push(
                        '-',
                    ));
                }
                k = k + 1;
            }
            proof {
                assert(expand_placement(rem) == blanks(digit_val(rem[0]) as nat)
                    + expand_placement(rem.subrange(1, rem.len() as int)));
                assert(expand_placement(p@) =~= cells@ + expand_placement(
                    p@.subrange(i as int + 1, p@.len() as int),
                ));
            }
        } else {
            cells.push(c);
            proof {
                assert(expand_placement(rem) == seq![rem[0]] + expand_placement(
                    rem.subrange(1, rem.len() as int),
                ));
                assert(expand_placement(p@) =~= cells@ + expand_placement(
                    p@.subrange(i as int + 1, p@.len() as int),
                ));
            }
        }
        i = i + 1;
    }
    proof {
        assert(expand_placement(p@.subrange(p@.len() as int, p@.len() as int)) == Seq::<
            char,
        >::empty());
        assert(cells@ =~= expand_placement(p@));
    }
    cells
}

/// Round trip: the portable text of any reachable board, fed back through
/// `from_fen`, names the very same position text.
pub proof fn lemma_encoding_round_trip(b: Board)
    requires
        b.inv(),
    ensures
        spec_from_fen(b@) == b@,
{
}

} // verus!
