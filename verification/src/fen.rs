//! The strict single-line form of the portable position notation.
//!
//! A text is accepted by `from_encoding` only when it is in this strict form:
//! six fields separated by single spaces, a placement of eight ranks of eight
//! squares each with exactly one king per side, a side-to-move letter, a
//! castling field over its five allowed letters, an en-passant field, and two
//! bounded decimal counters. Anything else falls back to the starting
//! position. The bounds also keep the text inside the domain on which the
//! rules engine's own parser is total.

use vstd::prelude::*;

verus! {

pub open spec fn is_piece_char(c: char) -> bool {
    c == 'p' || c == 'n' || c == 'b' || c == 'r' || c == 'q' || c == 'k' || c == 'P' || c == 'N'
        || c == 'B' || c == 'R' || c == 'Q' || c == 'K'
}

pub open spec fn is_rank_digit(c: char) -> bool {
    49 <= c as u32 && c as u32 <= 56
}

pub open spec fn is_dec_digit(c: char) -> bool {
    48 <= c as u32 && c as u32 <= 57
}

pub open spec fn digit_val(c: char) -> int {
    c as u32 - 48
}

/// The numeric value of a run of decimal digits.
pub open spec fn dec_value(s: Seq<char>) -> int
    decreases s.len(),
{
    if s.len() == 0 {
        0
    } else {
        dec_value(s.drop_last()) * 10 + digit_val(s.last())
    }
}

pub open spec fn all_dec_digits(s: Seq<char>) -> bool {
    forall|i: int| 0 <= i < s.len() ==> is_dec_digit(#[trigger] s[i])
}

pub open spec fn pow10(n: nat) -> int
    decreases n,
{
    if n == 0 {
        1
    } else {
        10 * pow10((n - 1) as nat)
    }
}

pub proof fn lemma_dec_value_bound(s: Seq<char>)
    requires
        all_dec_digits(s),
    ensures
        0 <= dec_value(s) < pow10(s.len()),
    decreases s.len(),
{
    if s.len() > 0 {
        assert(is_dec_digit(s[s.len() - 1]));
        assert(all_dec_digits(s.drop_last())) by {
            assert(forall|i: int|
                0 <= i < s.drop_last().len() ==> #[trigger] s.drop_last()[i] == s[i]);
        }
        lemma_dec_value_bound(s.drop_last());
    }
}

/// Scans a placement field. `ranks` counts the rank separators seen so far,
/// `cur` the squares filled on the current rank, `wk` and `bk` the kings seen.
pub open spec fn placement_scan(p: Seq<char>, ranks: int, cur: int, wk: int, bk: int) -> bool
    decreases p.len(),
{
    if p.len() == 0 {
        ranks == 7 && cur == 8 && wk == 1 && bk == 1
    } else {
        let c = p[0];
        let rest = p.subrange(1, p.len() as int);
        if c == '/' {
            cur == 8 && ranks < 7 && placement_scan(rest, ranks + 1, 0, wk, bk)
        } else if is_rank_digit(c) {
            cur + digit_val(c) <= 8 && placement_scan(rest, ranks, cur + digit_val(c), wk, bk)
        } else if is_piece_char(c) {
            cur < 8 && placement_scan(
                rest,
                ranks,
                cur + 1,
                if c == 'K' { wk + 1 } else { wk },
                if c == 'k' { bk + 1 } else { bk },
            )
        } else {
            false
        }
    }
}

pub open spec fn placement_ok(p: Seq<char>) -> bool {
    placement_scan(p, 0, 0, 0, 0)
}

pub open spec fn turn_ok(f: Seq<char>) -> bool {
    f.len() == 1 && (f[0] == 'w' || f[0] == 'b')
}

pub open spec fn is_castle_char(c: char) -> bool {
    c == 'K' || c == 'Q' || c == 'k' || c == 'q' || c == '-'
}

pub open spec fn castling_ok(f: Seq<char>) -> bool {
    1 <= f.len() && f.len() <= 4 && forall|i: int|
        0 <= i < f.len() ==> is_castle_char(#[trigger] f[i])
}

pub open spec fn is_file_char(c: char) -> bool {
    97 <= c as u32 && c as u32 <= 104
}

pub open spec fn ep_ok(f: Seq<char>) -> bool {
    (f.len() == 1 && f[0] == '-') || (f.len() == 2 && is_file_char(f[0]) && (f[1] == '3' || f[1]
        == '6'))
}

pub open spec fn halfmove_ok(f: Seq<char>) -> bool {
    1 <= f.len() && f.len() <= 5 && all_dec_digits(f) && dec_value(f) <= 32767
}

pub open spec fn fullmove_ok(f: Seq<char>) -> bool {
    1 <= f.len() && f.len() <= 5 && all_dec_digits(f) && 1 <= dec_value(f) && dec_value(f)
        <= 32768
}

/// Index of the first space, or the length when there is none.
pub open spec fn first_space(s: Seq<char>) -> nat
    decreases s.len(),
{
    if s.len() == 0 {
        0
    } else if s[0] == ' ' {
        0
    } else {
        1 + first_space(s.subrange(1, s.len() as int))
    }
}

pub proof fn lemma_first_space_at(s: Seq<char>, n: int)
    requires
        0 <= n <= s.len(),
        forall|k: int| 0 <= k < n ==> s[k] != ' ',
        n == s.len() || s[n] == ' ',
    ensures
        first_space(s) == n,
    decreases s.len(),
{
    if n == 0 {
        if s.len() != 0 {
            assert(s[0] == ' ');
        }
    } else {
        let rest = s.subrange(1, s.len() as int);
        lemma_first_space_at(rest, n - 1);
    }
}

pub proof fn lemma_first_space_le(s: Seq<char>)
    ensures
        first_space(s) <= s.len(),
    decreases s.len(),
{
    if s.len() != 0 && s[0] != ' ' {
        lemma_first_space_le(s.subrange(1, s.len() as int));
    }
}

/// The fields of a line, split on single spaces.
pub open spec fn split_fields(s: Seq<char>) -> Seq<Seq<char>>
    decreases s.len(),
{
    let i = first_space(s) as int;
    if i >= s.len() {
        seq![s]
    } else {
        seq![s.subrange(0, i)] + split_fields(s.subrange(i + 1, s.len() as int))
    }
}

/// Counter headroom: both move counters stay inside the engine's machine
/// types even after the one increment a move application performs.
pub open spec fn fen_counters_roomy(s: Seq<char>) -> bool {
    let fs = split_fields(s);
    fs.len() == 6 && dec_value(fs[4]) <= 32766 && dec_value(fs[5]) <= 32767
}

/// The strict form of the portable position notation.
pub open spec fn fen_strict(s: Seq<char>) -> bool {
    let fs = split_fields(s);
    fs.len() == 6 && placement_ok(fs[0]) && turn_ok(fs[1]) && castling_ok(fs[2]) && ep_ok(fs[3])
        && halfmove_ok(fs[4]) && fullmove_ok(fs[5])
}

pub(crate) fn copy_range(v: &Vec<char>, a: usize, b: usize) -> (r: Vec<char>)
    requires
        a <= b <= v@.len(),
    ensures
        r@ == v@.subrange(a as int, b as int),
{
    let mut out: Vec<char> = Vec::new();
    let mut i: usize = a;
    while i < b
        invariant
            a <= i <= b <= v@.len(),
            out@ == v@.subrange(a as int, i as int),
        decreases b - i,
    {
        out.push(v[i]);
        proof {
            assert(v@.subrange(a as int, i + 1 as int) == v@.subrange(a as int, i as int).push(
                v@[i as int],
            ));
        }
        i = i + 1;
    }
    out
}

pub fn split_fields_exec(v: &Vec<char>) -> (r: Vec<Vec<char>>)
    ensures
        r@.map_values(|f: Vec<char>| f@) == split_fields(v@),
{
    let mut out: Vec<Vec<char>> = Vec::new();
    let mut start: usize = 0;
    proof {
        assert(v@.subrange(0, v@.len() as int) == v@);
        assert(out@.map_values(|f: Vec<char>| f@) + split_fields(v@) =~~= split_fields(v@));
    }
    loop
        invariant
            start <= v@.len(),
            split_fields(v@) == out@.map_values(|f: Vec<char>| f@) + split_fields(
                v@.subrange(start as int, v@.len() as int),
            ),
        decreases v@.len() - start,
    {
        let ghost rem = v@.subrange(start as int, v@.len() as int);
        let mut j: usize = start;
        while j < v.len() && v[j] != ' '
            invariant
                start <= j <= v@.len(),
                forall|k: int| start <= k < j ==> v@[k] != ' ',
            decreases v@.len() - j,
        {
            j = j + 1;
        }
        proof {
            assert(forall|k: int| 0 <= k < j - start ==> rem[k] != ' ');
            lemma_first_space_at(rem, j - start);
        }
        let field = copy_range(v, start, j);
        let ghost prev_map = out@.map_values(|f: Vec<char>| f@);
        out.push(field);
        proof {
            assert(out@.map_values(|f: Vec<char>| f@) =~~= prev_map.push(field@));
        }
        if j == v.len() {
            proof {
                assert(field@ =~= rem);
                assert(split_fields(rem) == seq![rem]);
                assert(prev_map + seq![rem] =~~= prev_map.push(field@));
            }
            return out;
        }
        proof {
            let i = (j - start) as int;
            assert(rem.subrange(0, i) =~= field@);
            assert(rem.subrange(i + 1, rem.len() as int) =~= v@.subrange(
                j as int + 1,
                v@.len() as int,
            ));
            assert(split_fields(rem) == seq![field@] + split_fields(
                v@.subrange(j as int + 1, v@.len() as int),
            ));
            assert(prev_map + (seq![field@] + split_fields(
                v@.subrange(j as int + 1, v@.len() as int),
            )) =~~= prev_map.push(field@) + split_fields(
                v@.subrange(j as int + 1, v@.len() as int),
            ));
        }
        start = j + 1;
    }
}

fn placement_check(f: &Vec<char>) -> (r: bool)
    ensures
        r == placement_ok(f@),
{
    let mut i: usize = 0;
    let mut ranks: u32 = 0;
    let mut cur: u32 = 0;
    let mut wk: usize = 0;
    let mut bk: usize = 0;
    proof {
        assert(f@.subrange(0, f@.len() as int) == f@);
    }
    while i < f.len()
        invariant
            i <= f@.len(),
            ranks <= 7,
            cur <= 8,
            wk <= i,
            bk <= i,
            placement_ok(f@) == placement_scan(
                f@.subrange(i as int, f@.len() as int),
                ranks as int,
                cur as int,
                wk as int,
                bk as int,
            ),
        decreases f@.len() - i,
    {
        let ghost rem = f@.subrange(i as int, f@.len() as int);
        proof {
            assert(rem[0] == f@[i as int]);
            assert(rem.subrange(1, rem.len() as int) == f@.subrange(
                i + 1 as int,
                f@.len() as int,
            ));
        }
        let c = f[i];
        let cu = c as u32;
        if c == '/' {
            if !(cur == 8 && ranks < 7) {
                return false;
            }
            ranks = ranks + 1;
            cur = 0;
        } else if 49 <= cu && cu <= 56 {
            let d = cu - 48;
            if cur + d > 8 {
                return false;
            }
            cur = cur + d;
        } else if c == 'p' || c == 'n' || c == 'b' || c == 'r' || c == 'q' || c == 'k' || c == 'P'
            || c == 'N' || c == 'B' || c == 'R' || c == 'Q' || c == 'K' {
            if cur >= 8 {
                return false;
            }
            cur = cur + 1;
            if c == 'K' {
                wk = wk + 1;
            }
            if c == 'k' {
                bk = bk + 1;
            }
        } else {
            return false;
        }
        i = i + 1;
    }
    ranks == 7 && cur == 8 && wk == 1 && bk == 1
}

fn digits_value_check(f: &Vec<char>) -> (r: Option<u32>)
    ensures
        match r {
            Some(n) => 1 <= f@.len() <= 5 && all_dec_digits(f@) && n == dec_value(f@),
            None => !(1 <= f@.len() <= 5 && all_dec_digits(f@)),
        },
{
    if f.len() < 1 || f.len() > 5 {
        return None;
    }
    let mut i: usize = 0;
    let mut acc: u32 = 0;
    while i < f.len()
        invariant
            i <= f@.len() <= 5,
            acc == dec_value(f@.subrange(0, i as int)),
            all_dec_digits(f@.subrange(0, i as int)),
            forall|k: int| 0 <= k < i ==> is_dec_digit(#[trigger] f@[k]),
        decreases f@.len() - i,
    {
        let c = f[i];
        let cu = c as u32;
        if !(48 <= cu && cu <= 57) {
            proof {
                assert(!is_dec_digit(f@[i as int]));
            }
            return None;
        }
        proof {
            let pre = f@.subrange(0, i as int);
            lemma_dec_value_bound(pre);
            assert(pre.len() <= 4);
            assert(pow10(0) == 1);
            assert(pow10(1) == 10);
            assert(pow10(2) == 100);
            assert(pow10(3) == 1000);
            assert(pow10(4) == 10000);
            assert(pow10(pre.len()) <= 10000) by {
                if pre.len() == 0 {
                } else if pre.len() == 1 {
                } else if pre.len() == 2 {
                } else if pre.len() == 3 {
                } else {
                    assert(pre.len() == 4);
                }
            }
            assert(acc <= 9999);
            let ext = f@.subrange(0, i as int + 1);
            assert(ext.drop_last() =~= pre);
            assert(ext.last() == f@[i as int]);
            assert(all_dec_digits(ext)) by {
                assert(forall|k: int| 0 <= k < ext.len() ==> ext[k] == f@[k]);
            }
        }
        acc = acc * 10 + (cu - 48);
        i = i + 1;
    }
    proof {
        assert(f@.subrange(0, f@.len() as int) == f@);
    }
    Some(acc)
}

fn castling_check(f: &Vec<char>) -> (r: bool)
    ensures
        r == castling_ok(f@),
{
    if f.len() < 1 || f.len() > 4 {
        return false;
    }
    let mut i: usize = 0;
    while i < f.len()
        invariant
            i <= f@.len(),
            forall|k: int| 0 <= k < i ==> is_castle_char(#[trigger] f@[k]),
        decreases f@.len() - i,
    {
        let c = f[i];
        if !(c == 'K' || c == 'Q' || c == 'k' || c == 'q' || c == '-') {
            return false;
        }
        i = i + 1;
    }
    true
}

/// Whether a strict text also has counter headroom.
pub fn fen_counters_roomy_check(s: &str) -> (r: bool)
    requires
        fen_strict(s@),
    ensures
        r == fen_counters_roomy(s@),
{
    let v = crate::text::string_to_chars(s);
    let fields = split_fields_exec(&v);
    proof {
        assert(fields@.map_values(|f: Vec<char>| f@).len() == 6);
        assert(fields@.map_values(|f: Vec<char>| f@)[4] == fields@[4]@);
        assert(fields@.map_values(|f: Vec<char>| f@)[5] == fields@[5]@);
    }
    let half = match digits_value_check(&fields[4]) {
        Some(n) => n,
        None => {
            proof {
                assert(false);
            }
            0
        },
    };
    let full = match digits_value_check(&fields[5]) {
        Some(n) => n,
        None => {
            proof {
                assert(false);
            }
            0
        },
    };
    half <= 32766 && full <= 32767
}

/// Whether the text is in the strict form of the portable notation.
pub fn fen_strict_check(s: &str) -> (r: bool)
    ensures
        r == fen_strict(s@),
{
    let v = crate::text::string_to_chars(s);
    let fields = split_fields_exec(&v);
    let ghost fs = split_fields(s@);
    if fields.len() != 6 {
        return false;
    }
    proof {
        assert(fields@.map_values(|f: Vec<char>| f@)[0] == fields@[0]@);
        assert(fields@.map_values(|f: Vec<char>| f@)[1] == fields@[1]@);
        assert(fields@.map_values(|f: Vec<char>| f@)[2] == fields@[2]@);
        assert(fields@.map_values(|f: Vec<char>| f@)[3] == fields@[3]@);
        assert(fields@.map_values(|f: Vec<char>| f@)[4] == fields@[4]@);
        assert(fields@.map_values(|f: Vec<char>| f@)[5] == fields@[5]@);
    }
    if !placement_check(&fields[0]) {
        return false;
    }
    let t = &fields[1];
    if !(t.len() == 1 && (t[0] == 'w' || t[0] == 'b')) {
        return false;
    }
    if !castling_check(&fields[2]) {
        return false;
    }
    let e = &fields[3];
    let ep_good = if e.len() == 1 {
        e[0] == '-'
    } else if e.len() == 2 {
        let c0 = e[0] as u32;
        (97 <= c0 && c0 <= 104) && (e[1] == '3' || e[1] == '6')
    } else {
        false
    };
    if !ep_good {
        return false;
    }
    let half = match digits_value_check(&fields[4]) {
        Some(n) => n <= 32767,
        None => false,
    };
    if !half {
        return false;
    }
    match digits_value_check(&fields[5]) {
        Some(n) => 1 <= n && n <= 32768,
        None => false,
    }
}

} // verus!
