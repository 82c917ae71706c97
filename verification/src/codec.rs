//! The session document format: a single structured text with the current
//! position, the ledger, and the creation time. The writer is exact — it
//! produces precisely the document the specification functions describe — and
//! the reader accepts only such documents.

use vstd::prelude::*;
use crate::fen::{all_dec_digits, dec_value, digit_val, is_dec_digit, lemma_dec_value_bound, pow10};
use crate::game::{HistoryEntry, RecordView};

verus! {

/// A character as it stands inside a quoted field: the quote and the
/// backslash carry a backslash before them.
pub open spec fn esc_char(c: char) -> Seq<char> {
    if c == '"' || c == '\\' {
        seq!['\\', c]
    } else {
        seq![c]
    }
}

/// A text as it stands inside a quoted field.
pub open spec fn esc(s: Seq<char>) -> Seq<char>
    decreases s.len(),
{
    if s.len() == 0 {
        Seq::empty()
    } else {
        esc_char(s[0]) + esc(s.subrange(1, s.len() as int))
    }
}

/// The character of a decimal digit.
pub open spec fn digit_char(d: nat) -> char {
    if d == 0 { '0' } else if d == 1 { '1' } else if d == 2 { '2' } else if d == 3 { '3' }
    else if d == 4 { '4' } else if d == 5 { '5' } else if d == 6 { '6' } else if d == 7 { '7' }
    else if d == 8 { '8' } else { '9' }
}

/// The decimal digits of a number, most significant first, no leading zeros.
pub open spec fn dec_digits(n: nat) -> Seq<char>
    decreases n,
{
    if n < 10 {
        seq![digit_char(n)]
    } else {
        dec_digits(n / 10).push(digit_char(n % 10))
    }
}

/// One ledger entry as a document object.
pub open spec fn ser_entry(e: RecordView) -> Seq<char> {
    "{\"fen\":\""@ + esc(e.fen) + seq!['"'] + ",\"uci_move\":\""@ + esc(e.uci) + seq!['"', '}']
}

/// The ledger as a document list body: the entries in order, separated by
/// commas.
pub open spec fn ser_history(h: Seq<RecordView>) -> Seq<char>
    decreases h.len(),
{
    if h.len() == 0 {
        Seq::empty()
    } else if h.len() == 1 {
        ser_entry(h[0])
    } else {
        ser_history(h.drop_last()) + seq![','] + ser_entry(h.last())
    }
}

/// The whole session document.
pub open spec fn ser_doc(board: Seq<char>, h: Seq<RecordView>, date: u64) -> Seq<char> {
    "{\"position\":\""@ + esc(board) + seq!['"'] + ",\"history\":["@ + ser_history(h)
        + "],\"date\":"@ + dec_digits(date as nat) + seq!['}']
}

pub(crate) fn push_all(out: &mut Vec<char>, s: &str)
    ensures
        final(out)@ == old(out)@ + s@,
{
    let mut v = crate::text::string_to_chars(s);
    out.append(&mut v);
}

pub(crate) fn push_escaped(out: &mut Vec<char>, s: &str)
    ensures
        final(out)@ == old(out)@ + esc(s@),
{
    let v = crate::text::string_to_chars(s);
    let ghost base = out@;
    let mut i: usize = 0;
    proof {
        assert(v@.subrange(0, v@.len() as int) == v@);
        assert(base + esc(v@) =~= base + esc(v@.subrange(0, v@.len() as int)));
    }
    while i < v.len()
        invariant
            i <= v@.len(),
            base + esc(v@) == out@ + esc(v@.subrange(i as int, v@.len() as int)),
        decreases v@.len() - i,
    {
        let ghost rem = v@.subrange(i as int, v@.len() as int);
        proof {
            assert(rem[0] == v@[i as int]);
            assert(rem.subrange(1, rem.len() as int) =~= v@.subrange(
                i as int + 1,
                v@.len() as int,
            ));
            assert(esc(rem) == esc_char(rem[0]) + esc(rem.subrange(1, rem.len() as int)));
        }
        let c = v[i];
        if c == '"' || c == '\\' {
            out.push('\\');
            out.push(c);
        } else {
            out.push(c);
        }
        proof {
            assert(base + esc(v@) =~= out@ + esc(v@.subrange(i as int + 1, v@.len() as int)));
        }
        i = i + 1;
    }
    proof {
        assert(esc(v@.subrange(v@.len() as int, v@.len() as int)) == Seq::<char>::empty());
        assert(out@ =~= base + esc(v@));
    }
}

fn digit_char_exec(d: u64) -> (c: char)
    requires
        d < 10,
    ensures
        c == digit_char(d as nat),
{
    if d == 0 { '0' } else if d == 1 { '1' } else if d == 2 { '2' } else if d == 3 { '3' }
    else if d == 4 { '4' } else if d == 5 { '5' } else if d == 6 { '6' } else if d == 7 { '7' }
    else if d == 8 { '8' } else { '9' }
}

pub(crate) fn push_digits(out: &mut Vec<char>, n: u64)
    ensures
        final(out)@ == old(out)@ + dec_digits(n as nat),
    decreases n,
{
    if n < 10 {
        out.push(digit_char_exec(n));
    } else {
        push_digits(out, n / 10);
        out.push(digit_char_exec(n % 10));
    }
}

fn push_entry(out: &mut Vec<char>, e: &HistoryEntry)
    ensures
        final(out)@ == old(out)@ + ser_entry(e@),
{
    push_all(out, "{\"fen\":\"");
    push_escaped(out, e.fen.as_str());
    out.push('"');
    push_all(out, ",\"uci_move\":\"");
    push_escaped(out, e.uci_move.as_str());
    out.push('"');
    out.push('}');
    proof {
        assert(out@ =~= old(out)@ + ser_entry(e@));
    }
}

/// Writes the session document for the given position text, ledger, and
/// creation time.
pub fn serialize_doc(fen: &str, history: &Vec<HistoryEntry>, date: u64) -> (r: String)
    ensures
        r@ == ser_doc(fen@, history@.map_values(|e: HistoryEntry| e@), date),
{
    let ghost h = history@.map_values(|e: HistoryEntry| e@);
    let mut out: Vec<char> = Vec::new();
    push_all(&mut out, "{\"position\":\"");
    push_escaped(&mut out, fen);
    out.push('"');
    push_all(&mut out, ",\"history\":[");
    let ghost list_base = out@;
    let mut i: usize = 0;
    proof {
        assert(ser_history(h.subrange(0, 0)) == Seq::<char>::empty());
        assert(out@ =~= list_base + ser_history(h.subrange(0, 0)));
    }
    while i < history.len()
        invariant
            i <= history@.len(),
            h == history@.map_values(|e: HistoryEntry| e@),
            out@ == list_base + ser_history(h.subrange(0, i as int)),
        decreases history@.len() - i,
    {
        if i > 0 {
            out.push(',');
        }
        push_entry(&mut out, &history[i]);
        proof {
            let pre = h.subrange(0, i as int + 1);
            assert(pre.drop_last() =~= h.subrange(0, i as int));
            assert(pre.last() == h[i as int]);
            assert(h[i as int] == history@[i as int]@);
            if i == 0 {
                assert(ser_history(pre) == ser_entry(h[0]));
            } else {
                assert(ser_history(pre) == ser_history(h.subrange(0, i as int)) + seq![',']
                    + ser_entry(h[i as int]));
            }
            assert(out@ =~= list_base + ser_history(pre));
        }
        i = i + 1;
    }
    proof {
        assert(h.subrange(0, h.len() as int) == h);
    }
    push_all(&mut out, "],\"date\":");
    push_digits(&mut out, date);
    out.push('}');
    proof {
        assert(out@ =~= ser_doc(fen@, h, date));
    }
    crate::text::chars_to_string(&out)
}

/// The file name a session with the given identifier is saved under.
pub fn save_file_name(file_id: u64) -> (r: String)
    ensures
        r@ == "saves/"@ + dec_digits(file_id as nat) + ".save"@,
{
    let mut out: Vec<char> = Vec::new();
    push_all(&mut out, "saves/");
    push_digits(&mut out, file_id);
    push_all(&mut out, ".save");
    crate::text::chars_to_string(&out)
}

/// The text `x` stands in `v` at position `i`.
pub open spec fn at(v: Seq<char>, i: int, x: Seq<char>) -> bool {
    0 <= i && i + x.len() <= v.len() && v.subrange(i, i + x.len() as int) == x
}

proof fn lemma_at_split(v: Seq<char>, i: int, x: Seq<char>, y: Seq<char>)
    ensures
        at(v, i, x + y) <==> (at(v, i, x) && at(v, i + x.len(), y)),
{
    let xy = x + y;
    if at(v, i, xy) {
        assert forall|k: int| 0 <= k < xy.len() implies v[i + k] == xy[k] by {
            assert(v.subrange(i, i + xy.len() as int)[k] == xy[k]);
        }
        assert(v.subrange(i, i + x.len() as int) =~= x);
        assert(v.subrange(i + x.len(), i + x.len() + y.len() as int) =~= y) by {
            assert forall|k: int|
                0 <= k < y.len() implies v[i + x.len() + k] == y[k] by {
                assert(xy[x.len() + k] == y[k]);
            }
        }
    }
    if at(v, i, x) && at(v, i + x.len(), y) {
        assert forall|k: int| 0 <= k < x.len() implies v[i + k] == x[k] by {
            assert(v.subrange(i, i + x.len() as int)[k] == x[k]);
        }
        assert forall|k: int| 0 <= k < y.len() implies v[i + x.len() + k] == y[k] by {
            assert(v.subrange(i + x.len(), i + x.len() + y.len() as int)[k] == y[k]);
        }
        assert(v.subrange(i, i + x.len() + y.len() as int) =~= x + y);
    }
}

proof fn lemma_pow10_19()
    ensures
        pow10(19) == 0x8ac7230489e80000,
{
    assert(pow10(0) == 1);
    assert(pow10(1) == 10);
    assert(pow10(2) == 100);
    assert(pow10(3) == 1000);
    assert(pow10(4) == 10000);
    assert(pow10(5) == 100000);
    assert(pow10(6) == 1000000);
    assert(pow10(7) == 10000000);
    assert(pow10(8) == 100000000);
    assert(pow10(9) == 1000000000);
    assert(pow10(10) == 10000000000);
    assert(pow10(11) == 100000000000);
    assert(pow10(12) == 1000000000000);
    assert(pow10(13) == 10000000000000);
    assert(pow10(14) == 100000000000000);
    assert(pow10(15) == 1000000000000000);
    assert(pow10(16) == 10000000000000000);
    assert(pow10(17) == 100000000000000000);
    assert(pow10(18) == 1000000000000000000);
    assert(pow10(19) == 10000000000000000000);
}

proof fn lemma_pow10_20()
    ensures
        pow10(20) == 0x56bc75e2d63100000,
{
    lemma_pow10_19();
    assert(pow10(20) == 10 * pow10(19));
}

proof fn lemma_pow10_pos(a: nat)
    ensures
        pow10(a) >= 1,
    decreases a,
{
    if a > 0 {
        lemma_pow10_pos((a - 1) as nat);
    }
}

proof fn lemma_pow10_mono(a: nat, b: nat)
    requires
        a <= b,
    ensures
        pow10(a) <= pow10(b),
    decreases b,
{
    if a < b {
        lemma_pow10_mono(a, (b - 1) as nat);
        assert(pow10(b) == 10 * pow10((b - 1) as nat));
        assert(pow10(a) >= 1) by {
            lemma_pow10_pos(a);
        }
    }
}

proof fn lemma_digit_char_facts(k: nat)
    requires
        k < 10,
    ensures
        is_dec_digit(digit_char(k)),
        digit_val(digit_char(k)) == k,
        k >= 1 ==> digit_char(k) != '0',
{
}

/// The printed digits of a number evaluate back to it, are decimal digits
/// throughout, and carry no leading zero.
pub proof fn lemma_value_of_digits(n: nat)
    ensures
        dec_value(dec_digits(n)) == n,
        all_dec_digits(dec_digits(n)),
        dec_digits(n).len() >= 1,
        dec_digits(n).len() == 1 || dec_digits(n)[0] != '0',
    decreases n,
{
    if n < 10 {
        lemma_digit_char_facts(n);
        let ds = dec_digits(n);
        assert(ds.drop_last().len() == 0);
        assert(dec_value(ds.drop_last()) == 0);
        assert(dec_value(ds) == digit_val(ds.last()));
    } else {
        lemma_value_of_digits(n / 10);
        lemma_digit_char_facts(n % 10);
        let pre = dec_digits(n / 10);
        let ds = dec_digits(n);
        assert(ds == pre.push(digit_char(n % 10)));
        assert(ds.drop_last() =~= pre);
        assert(ds.last() == digit_char(n % 10));
        assert(dec_value(ds) == dec_value(pre) * 10 + digit_val(digit_char(n % 10)));
        assert(all_dec_digits(ds)) by {
            assert(forall|j: int| 0 <= j < pre.len() ==> ds[j] == pre[j]);
        }
        assert(ds[0] == pre[0]);
        if pre.len() == 1 {
            assert(pre.drop_last().len() == 0);
            assert(dec_value(pre.drop_last()) == 0);
            assert(dec_value(pre) == digit_val(pre[0]));
            assert(is_dec_digit(pre[0]));
            assert(n / 10 < 10);
            lemma_digit_char_facts((n / 10) as nat);
        }
    }
}

proof fn lemma_dec_digits_len(n: nat, k: nat)
    requires
        k >= 1,
        n < pow10(k),
    ensures
        dec_digits(n).len() <= k,
    decreases n,
{
    if n < 10 {
    } else {
        assert(pow10(k) == 10 * pow10((k - 1) as nat));
        assert(k >= 2) by {
            if k == 1 {
                assert(pow10(1nat) == 10 * pow10(0nat));
                assert(pow10(0nat) == 1);
            }
        }
        assert(n / 10 < pow10((k - 1) as nat)) by (nonlinear_arith)
            requires
                n < 10 * pow10((k - 1) as nat),
                n >= 10,
        ;
        lemma_dec_digits_len((n / 10) as nat, (k - 1) as nat);
    }
}

proof fn lemma_char_is_zero_digit(c: char)
    requires
        c as u32 == 48,
    ensures
        c == '0',
{
}

proof fn lemma_digit_nonzero(c: char)
    requires
        c != '0',
        48 <= c as u32,
        c as u32 <= 57,
    ensures
        digit_val(c) >= 1,
{
    assert('0' as u32 == 48);
}

proof fn lemma_dec_value_lower(s: Seq<char>)
    requires
        all_dec_digits(s),
        s.len() >= 1,
        s[0] != '0',
    ensures
        dec_value(s) >= pow10((s.len() - 1) as nat),
    decreases s.len(),
{
    if s.len() == 1 {
        let c = s[0];
        assert(is_dec_digit(c));
        lemma_digit_nonzero(c);
        assert(s.drop_last().len() == 0);
        assert(dec_value(s.drop_last()) == 0);
        assert(dec_value(s) == digit_val(s[0]));
    } else {
        let pre = s.drop_last();
        assert(all_dec_digits(pre)) by {
            assert(forall|i: int| 0 <= i < pre.len() ==> pre[i] == s[i]);
        }
        lemma_dec_value_lower(pre);
        assert(is_dec_digit(s.last()));
    }
}

proof fn lemma_digit_char_val(c: char)
    requires
        is_dec_digit(c),
    ensures
        digit_char(digit_val(c) as nat) == c,
{
    assert('0' as u32 == 48);
    assert('1' as u32 == 49);
    assert('2' as u32 == 50);
    assert('3' as u32 == 51);
    assert('4' as u32 == 52);
    assert('5' as u32 == 53);
    assert('6' as u32 == 54);
    assert('7' as u32 == 55);
    assert('8' as u32 == 56);
    assert('9' as u32 == 57);
}

/// A digit run without leading zeros is exactly the printed digits of its
/// value.
pub proof fn lemma_digits_of_value(ds: Seq<char>)
    requires
        all_dec_digits(ds),
        ds.len() >= 1,
        ds.len() == 1 || ds[0] != '0',
    ensures
        dec_digits(dec_value(ds) as nat) == ds,
    decreases ds.len(),
{
    lemma_dec_value_bound(ds);
    if ds.len() == 1 {
        assert(ds.drop_last().len() == 0);
        assert(dec_value(ds.drop_last()) == 0);
        assert(dec_value(ds) == digit_val(ds[0]));
        assert(is_dec_digit(ds[0]));
        lemma_digit_char_val(ds[0]);
        assert(dec_digits(dec_value(ds) as nat) =~= ds);
    } else {
        let pre = ds.drop_last();
        let d = digit_val(ds.last());
        assert(all_dec_digits(pre)) by {
            assert(forall|i: int| 0 <= i < pre.len() ==> pre[i] == ds[i]);
        }
        let vp = dec_value(pre);
        let v = dec_value(ds);
        assert(v == vp * 10 + d);
        lemma_dec_value_lower(pre);
        lemma_pow10_pos((pre.len() - 1) as nat);
        assert(vp >= 1);
        assert(is_dec_digit(ds.last()));
        assert(0 <= d <= 9);
        assert(v >= 10);
        assert(v / 10 == vp && v % 10 == d) by (nonlinear_arith)
            requires
                v == vp * 10 + d,
                0 <= d <= 9,
                vp >= 0,
        ;
        lemma_digits_of_value(pre);
        lemma_digit_char_val(ds.last());
        assert(dec_digits(v as nat) == dec_digits(vp as nat).push(digit_char(d as nat)));
        assert(dec_digits(v as nat) =~= ds);
    }
}

/// A digit text standing at the start of a maximal digit run covers exactly
/// the run.
proof fn lemma_run_is_digits(v: Seq<char>, i: int, j: int, ds: Seq<char>)
    requires
        0 <= i <= j <= v.len(),
        forall|k: int| i <= k < j ==> is_dec_digit(#[trigger] v[k]),
        j == v.len() || !is_dec_digit(v[j]),
        all_dec_digits(ds),
        ds.len() >= 1,
        at(v, i, ds),
        i + ds.len() == v.len() || !is_dec_digit(v[i + ds.len()]),
    ensures
        ds == v.subrange(i, j),
{
    let e = i + ds.len() as int;
    assert forall|k: int| i <= k < e implies is_dec_digit(#[trigger] v[k]) by {
        let m = k - i;
        assert(v.subrange(i, i + ds.len() as int)[m] == ds[m]);
        assert(is_dec_digit(ds[m]));
        assert(v[k] == ds[m]);
    }
    if e < j {
        assert(is_dec_digit(v[e]));
        assert(false);
    }
    if j < e {
        assert(is_dec_digit(v[j]));
        assert(false);
    }
    assert(ds =~= v.subrange(i, j));
}

fn parse_u64_at(v: &Vec<char>, i: usize) -> (r: Option<(u64, usize)>)
    requires
        i <= v@.len(),
    ensures
        match r {
            Some(p) => i < p.1 <= v@.len() && at(v@, i as int, dec_digits(p.0 as nat)) && p.1
                == i + dec_digits(p.0 as nat).len() && (p.1 == v@.len() || !is_dec_digit(
                v@[p.1 as int],
            )),
            None => true,
        },
        forall|d: u64|
            (at(v@, i as int, #[trigger] dec_digits(d as nat)) && (i + dec_digits(
                d as nat,
            ).len() == v@.len() || !is_dec_digit(
                v@[i + dec_digits(d as nat).len()],
            ))) ==> (r is Some && (r->0).0 == d),
{
    let ghost gi = i as int;
    let mut j: usize = i;
    let mut acc: u128 = 0;
    loop
        invariant
            gi == i as int,
            i <= j <= v@.len(),
            j - i <= 20,
            all_dec_digits(v@.subrange(gi, j as int)),
            acc == dec_value(v@.subrange(gi, j as int)),
            acc < pow10((j - i) as nat),
            forall|k: int| gi <= k < j ==> is_dec_digit(#[trigger] v@[k]),
        ensures
            j == v@.len() || !is_dec_digit(v@[j as int]),
        decreases v@.len() - j,
    {
        if j >= v.len() {
            break;
        }
        let cu = v[j] as u32;
        if !(48 <= cu && cu <= 57) {
            break;
        }
        if j - i >= 20 {
            proof {
                assert(i + 20 <= j);
                assert(j < v@.len());
                assert forall|d: u64|
                    !(at(v@, gi, #[trigger] dec_digits(d as nat)) && (gi + dec_digits(
                        d as nat,
                    ).len() == v@.len() || !is_dec_digit(
                        v@[gi + dec_digits(d as nat).len()],
                    ))) by {
                    let ds = dec_digits(d as nat);
                    lemma_pow10_20();
                    lemma_dec_digits_len(d as nat, 20);
                    if at(v@, gi, ds) {
                        assert(j - i >= 20);
                        assert(i + 20 <= j);
                        assert(j < v.len());
                        assert(ds.len() as int <= 20);
                        assert(gi == i as int);
                        assert(gi + ds.len() as int <= i as int + 20);
                        assert(i as int + 20 <= j as int);
                        assert((j as int) < (v@.len() as int));
                        assert(gi + ds.len() < v@.len());
                        assert(is_dec_digit(v@[gi + ds.len()]));
                    }
                }
            }
            return None;
        }
        proof {
            let pre = v@.subrange(gi, j as int);
            lemma_pow10_20();
            lemma_pow10_mono((j - i) as nat, 19);
            let ext = v@.subrange(gi, j as int + 1);
            assert(ext.drop_last() =~= pre);
            assert(ext.last() == v@[j as int]);
            assert(all_dec_digits(ext)) by {
                assert(forall|k: int| 0 <= k < ext.len() ==> ext[k] == v@[gi + k]);
                assert(is_dec_digit(v@[j as int]));
            }
            assert(acc * 10 + (cu - 48) < pow10(((j - i) + 1) as nat)) by (nonlinear_arith)
                requires
                    acc < pow10((j - i) as nat),
                    cu - 48 < 10,
                    pow10(((j - i) + 1) as nat) == 10 * pow10((j - i) as nat),
            ;
        }
        acc = acc * 10 + ((cu - 48) as u128);
        j = j + 1;
    }
    let ghost run = v@.subrange(gi, j as int);
    proof {
        assert(j == v@.len() || !is_dec_digit(v@[j as int]));
    }
    if j == i {
        proof {
            assert forall|d: u64| !at(v@, gi, #[trigger] dec_digits(d as nat)) by {
                let ds = dec_digits(d as nat);
                lemma_value_of_digits(d as nat);
                if at(v@, gi, ds) {
                    assert(v@[gi] == ds[0]);
                    assert(is_dec_digit(ds[0]));
                }
            }
        }
        return None;
    }
    if j - i > 1 && (v[i] as u32) == 48 {
        proof {
            lemma_char_is_zero_digit(v@[gi]);
            assert forall|d: u64|
                !(at(v@, gi, #[trigger] dec_digits(d as nat)) && (gi + dec_digits(
                    d as nat,
                ).len() == v@.len() || !is_dec_digit(v@[gi + dec_digits(d as nat).len()]))) by {
                let ds = dec_digits(d as nat);
                lemma_value_of_digits(d as nat);
                if at(v@, gi, ds) && (gi + ds.len() == v@.len() || !is_dec_digit(
                    v@[gi + ds.len()],
                )) {
                    assert(ds[0] == v@[gi]);
                    assert(ds.len() >= 2) by {
                        if ds.len() == 1 {
                            assert(is_dec_digit(v@[gi + 1]));
                        }
                    }
                }
            }
        }
        return None;
    }
    if acc > 0xffff_ffff_ffff_ffff_u128 {
        proof {
            assert forall|d: u64|
                !(at(v@, gi, #[trigger] dec_digits(d as nat)) && (gi + dec_digits(
                    d as nat,
                ).len() == v@.len() || !is_dec_digit(v@[gi + dec_digits(d as nat).len()]))) by {
                let ds = dec_digits(d as nat);
                lemma_value_of_digits(d as nat);
                if at(v@, gi, ds) && (gi + ds.len() == v@.len() || !is_dec_digit(
                    v@[gi + ds.len()],
                )) {
                    lemma_run_is_digits(v@, gi, j as int, ds);
                    assert(dec_value(ds) == d);
                }
            }
        }
        return None;
    }
    let n = acc as u64;
    proof {
        assert(n == dec_value(run));
        assert(run.len() >= 1);
        assert(run[0] != '0' || run.len() == 1) by {
            if run.len() > 1 {
                assert(run[0] == v@[gi]);
                if v@[gi] as u32 == 48 {
                    lemma_char_is_zero_digit(v@[gi]);
                }
            }
        }
        lemma_digits_of_value(run);
        assert(dec_digits(n as nat) == run);
        assert(at(v@, gi, run)) by {
            assert(v@.subrange(gi, gi + run.len() as int) =~= run);
        }
        assert forall|d: u64|
            (at(v@, gi, #[trigger] dec_digits(d as nat)) && (gi + dec_digits(d as nat).len()
                == v@.len() || !is_dec_digit(v@[gi + dec_digits(d as nat).len()]))) implies d
            == n by {
            let ds = dec_digits(d as nat);
            lemma_value_of_digits(d as nat);
            lemma_run_is_digits(v@, gi, j as int, ds);
            assert(dec_value(ds) == d);
        }
    }
    Some((n, j))
}

/// An escaped text with its closing quote.
pub open spec fn qstr(s: Seq<char>) -> Seq<char> {
    esc(s) + seq!['"']
}

proof fn lemma_qstr_head(s: Seq<char>)
    ensures
        s.len() == 0 ==> qstr(s) == seq!['"'],
        s.len() >= 1 && !(s[0] == '"' || s[0] == '\\') ==> qstr(s) == seq![s[0]] + qstr(
            s.subrange(1, s.len() as int),
        ),
        s.len() >= 1 && (s[0] == '"' || s[0] == '\\') ==> qstr(s) == seq!['\\', s[0]] + qstr(
            s.subrange(1, s.len() as int),
        ),
        s.len() >= 1 ==> qstr(s)[0] != '"',
{
    if s.len() == 0 {
        assert(esc(s) == Seq::<char>::empty());
        assert(qstr(s) =~= seq!['"']);
    } else {
        let rest = s.subrange(1, s.len() as int);
        assert(esc(s) == esc_char(s[0]) + esc(rest));
        if s[0] == '"' || s[0] == '\\' {
            assert(qstr(s) =~= seq!['\\', s[0]] + qstr(rest));
        } else {
            assert(qstr(s) =~= seq![s[0]] + qstr(rest));
        }
    }
}

fn expect_lit(v: &Vec<char>, i: usize, lit: &str) -> (r: Option<usize>)
    requires
        i <= v@.len(),
    ensures
        match r {
            Some(j) => j == i + lit@.len() && at(v@, i as int, lit@),
            None => !at(v@, i as int, lit@),
        },
{
    let lv = crate::text::string_to_chars(lit);
    if v.len() - i < lv.len() {
        return None;
    }
    let mut k: usize = 0;
    let mut j: usize = i;
    while k < lv.len()
        invariant
            k <= lv@.len() <= v@.len() - i,
            i <= v@.len(),
            j == i + k,
            lv@ == lit@,
            forall|m: int| 0 <= m < k ==> v@[i + m] == lv@[m],
        decreases lv@.len() - k,
    {
        if j >= v.len() {
            proof {
                assert(false);
            }
            return None;
        }
        if v[j] != lv[k] {
            proof {
                assert(!at(v@, i as int, lit@)) by {
                    if at(v@, i as int, lit@) {
                        assert(v@.subrange(i as int, i + lit@.len() as int)[k as int] == v@[i
                            + k]);
                    }
                }
            }
            return None;
        }
        k = k + 1;
        j = j + 1;
    }
    proof {
        assert(v@.subrange(i as int, i + lv@.len() as int) =~= lv@);
    }
    Some(i + lv.len())
}

fn parse_string_at(v: &Vec<char>, i: usize) -> (r: Option<(Vec<char>, usize)>)
    ensures
        match r {
            Some(p) => i < p.1 <= v@.len() && v@.subrange(i as int, p.1 as int) == qstr(p.0@),
            None => true,
        },
        forall|s: Seq<char>| at(v@, i as int, qstr(s)) ==> (r is Some && (#[trigger] qstr(
            s,
        )) == qstr((r->0).0@) && (r->0).0@ == s),
    decreases v@.len() - i,
{
    if i >= v.len() {
        proof {
            assert forall|s: Seq<char>| !at(v@, i as int, qstr(s)) by {
                if at(v@, i as int, qstr(s)) {
                    assert(qstr(s).len() >= 1);
                }
            }
        }
        return None;
    }
    let c = v[i];
    if c == '"' {
        let e: Vec<char> = Vec::new();
        proof {
            assert(esc(e@) == Seq::<char>::empty());
            assert(v@.subrange(i as int, i as int + 1) =~= qstr(e@));
            assert forall|s: Seq<char>| at(v@, i as int, qstr(s)) implies s == e@ by {
                lemma_qstr_head(s);
                if s.len() >= 1 {
                    assert(v@[i as int] == qstr(s)[0]);
                }
                assert(s =~= e@);
            }
        }
        return Some((e, i + 1));
    }
    if c == '\\' {
        if i + 1 < v.len() && (v[i + 1] == '"' || v[i + 1] == '\\') {
            let e = v[i + 1];
            match parse_string_at(v, i + 2) {
                Some((tail, j)) => {
                    let mut out: Vec<char> = Vec::new();
                    out.push(e);
                    let mut t = tail;
                    let ghost tv = t@;
                    out.append(&mut t);
                    proof {
                        assert(out@ == seq![e] + tv);
                        assert(out@[0] == e);
                        assert(out@.subrange(1, out@.len() as int) =~= tv);
                        assert(esc(out@) == esc_char(e) + esc(tv));
                        assert(esc_char(e) == seq!['\\', e]);
                        let c1 = v@[i as int + 1];
                        assert(v@.subrange(i as int, j as int) =~= seq![v@[i as int], c1]
                            + v@.subrange(i as int + 2, j as int));
                        assert(v@.subrange(i as int, j as int) =~= qstr(out@));
                        assert forall|s: Seq<char>| at(v@, i as int, qstr(s)) implies qstr(s)
                            == qstr(out@) && s == out@ by {
                            lemma_qstr_head(s);
                            assert(v@[i as int] == qstr(s)[0]);
                            assert(s.len() >= 1);
                            let srest = s.subrange(1, s.len() as int);
                            assert(s[0] == '"' || s[0] == '\\') by {
                                if !(s[0] == '"' || s[0] == '\\') {
                                    assert(qstr(s)[0] == s[0]);
                                }
                            }
                            lemma_at_split(v@, i as int, seq!['\\', s[0]], qstr(srest));
                            assert(v@[i as int + 1] == s[0]) by {
                                assert(v@.subrange(i as int, i as int + 2)[1] == v@[i as int
                                    + 1]);
                            }
                            assert(at(v@, i as int + 2, qstr(srest)));
                            assert(tv == srest);
                            assert(s =~= out@);
                        }
                    }
                    return Some((out, j));
                },
                None => {
                    proof {
                        assert forall|s: Seq<char>| !at(v@, i as int, qstr(s)) by {
                            if at(v@, i as int, qstr(s)) {
                                lemma_qstr_head(s);
                                assert(v@[i as int] == qstr(s)[0]);
                                assert(s.len() >= 1);
                                let srest = s.subrange(1, s.len() as int);
                                assert(s[0] == '"' || s[0] == '\\') by {
                                    if !(s[0] == '"' || s[0] == '\\') {
                                        assert(qstr(s)[0] == s[0]);
                                    }
                                }
                                lemma_at_split(v@, i as int, seq!['\\', s[0]], qstr(srest));
                                assert(at(v@, i as int + 2, qstr(srest)));
                            }
                        }
                    }
                    return None;
                },
            }
        }
        proof {
            assert forall|s: Seq<char>| !at(v@, i as int, qstr(s)) by {
                if at(v@, i as int, qstr(s)) {
                    lemma_qstr_head(s);
                    assert(v@[i as int] == qstr(s)[0]);
                    assert(s.len() >= 1);
                    let srest = s.subrange(1, s.len() as int);
                    assert(s[0] == '"' || s[0] == '\\') by {
                        if !(s[0] == '"' || s[0] == '\\') {
                            assert(qstr(s)[0] == s[0]);
                        }
                    }
                    lemma_at_split(v@, i as int, seq!['\\', s[0]], qstr(srest));
                    assert(v@[i as int + 1] == s[0]) by {
                        assert(v@.subrange(i as int, i as int + 2)[1] == v@[i as int + 1]);
                    }
                    assert(qstr(srest).len() >= 1);
                    assert(i + 1 < v@.len());
                }
            }
        }
        return None;
    }
    match parse_string_at(v, i + 1) {
        Some((tail, j)) => {
            let mut out: Vec<char> = Vec::new();
            out.push(c);
            let mut t = tail;
            let ghost tv = t@;
            out.append(&mut t);
            proof {
                assert(out@ == seq![c] + tv);
                assert(out@[0] == c);
                assert(out@.subrange(1, out@.len() as int) =~= tv);
                assert(esc(out@) == esc_char(c) + esc(tv));
                assert(esc_char(c) == seq![c]);
                assert(v@.subrange(i as int, j as int) =~= seq![v@[i as int]] + v@.subrange(
                    i as int + 1,
                    j as int,
                ));
                assert(v@.subrange(i as int, j as int) =~= qstr(out@));
                assert forall|s: Seq<char>| at(v@, i as int, qstr(s)) implies qstr(s) == qstr(
                    out@,
                ) && s == out@ by {
                    lemma_qstr_head(s);
                    assert(v@[i as int] == qstr(s)[0]);
                    assert(s.len() >= 1);
                    let srest = s.subrange(1, s.len() as int);
                    assert(!(s[0] == '"' || s[0] == '\\')) by {
                        if s[0] == '"' || s[0] == '\\' {
                            assert(qstr(s)[0] == '\\');
                        }
                    }
                    assert(s[0] == c) by {
                        assert(qstr(s)[0] == s[0]);
                    }
                    lemma_at_split(v@, i as int, seq![s[0]], qstr(srest));
                    assert(at(v@, i as int + 1, qstr(srest)));
                    assert(tv == srest);
                    assert(s =~= out@);
                }
            }
            Some((out, j))
        },
        None => {
            proof {
                assert forall|s: Seq<char>| !at(v@, i as int, qstr(s)) by {
                    if at(v@, i as int, qstr(s)) {
                        lemma_qstr_head(s);
                        assert(v@[i as int] == qstr(s)[0]);
                        assert(s.len() >= 1);
                        let srest = s.subrange(1, s.len() as int);
                        assert(!(s[0] == '"' || s[0] == '\\')) by {
                            if s[0] == '"' || s[0] == '\\' {
                                assert(qstr(s)[0] == '\\');
                            }
                        }
                        assert(qstr(s)[0] == s[0]);
                        lemma_at_split(v@, i as int, seq![s[0]], qstr(srest));
                        assert(at(v@, i as int + 1, qstr(srest)));
                    }
                }
            }
            None
        },
    }
}

proof fn lemma_entry_group(ev: RecordView)
    ensures
        ser_entry(ev) == "{\"fen\":\""@ + (qstr(ev.fen) + (",\"uci_move\":\""@ + (qstr(ev.uci)
            + seq!['}']))),
{
    assert(ser_entry(ev) =~= "{\"fen\":\""@ + (qstr(ev.fen) + (",\"uci_move\":\""@ + (qstr(
        ev.uci,
    ) + seq!['}']))));
}

fn parse_entry_at(v: &Vec<char>, i: usize) -> (r: Option<(HistoryEntry, usize)>)
    requires
        i <= v@.len(),
    ensures
        match r {
            Some(p) => i < p.1 <= v@.len() && v@.subrange(i as int, p.1 as int) == ser_entry(
                p.0@,
            ),
            None => true,
        },
        forall|ev: RecordView| at(v@, i as int, #[trigger] ser_entry(ev)) ==> (r is Some && (
        r->0).0@ == ev),
{
    let ghost gi = i as int;
    proof {
        assert forall|ev: RecordView| at(v@, gi, ser_entry(ev)) implies at(v@, gi,
            "{\"fen\":\""@) && at(v@, gi + "{\"fen\":\""@.len(), qstr(ev.fen)) && at(
            v@,
            gi + "{\"fen\":\""@.len() + qstr(ev.fen).len(),
            ",\"uci_move\":\""@,
        ) && at(
            v@,
            gi + "{\"fen\":\""@.len() + qstr(ev.fen).len() + ",\"uci_move\":\""@.len(),
            qstr(ev.uci),
        ) && at(
            v@,
            gi + "{\"fen\":\""@.len() + qstr(ev.fen).len() + ",\"uci_move\":\""@.len() + qstr(
                ev.uci,
            ).len(),
            seq!['}'],
        ) by {
            lemma_entry_group(ev);
            let a1 = "{\"fen\":\""@;
            let a2 = qstr(ev.fen);
            let a3 = ",\"uci_move\":\""@;
            let a4 = qstr(ev.uci);
            let a5 = seq!['}'];
            lemma_at_split(v@, gi, a1, a2 + (a3 + (a4 + a5)));
            lemma_at_split(v@, gi + a1.len() as int, a2, a3 + (a4 + a5));
            lemma_at_split(v@, gi + a1.len() + a2.len() as int, a3, a4 + a5);
            lemma_at_split(v@, gi + a1.len() + a2.len() + a3.len() as int, a4, a5);
        }
    }
    let j0 = match expect_lit(v, i, "{\"fen\":\"") {
        Some(j) => j,
        None => {
            return None;
        },
    };
    let (fen_chars, j1) = match parse_string_at(v, j0) {
        Some(p) => p,
        None => {
            return None;
        },
    };
    let j2 = match expect_lit(v, j1, ",\"uci_move\":\"") {
        Some(j) => j,
        None => {
            proof {
                assert forall|ev: RecordView| !at(v@, gi, ser_entry(ev)) by {
                    if at(v@, gi, ser_entry(ev)) {
                        assert(fen_chars@ == ev.fen);
                        assert(j1 == j0 + qstr(ev.fen).len()) by {
                            assert(v@.subrange(j0 as int, j1 as int).len() == qstr(
                                fen_chars@,
                            ).len());
                        }
                    }
                }
            }
            return None;
        },
    };
    let (uci_chars, j3) = match parse_string_at(v, j2) {
        Some(p) => p,
        None => {
            proof {
                assert forall|ev: RecordView| !at(v@, gi, ser_entry(ev)) by {
                    if at(v@, gi, ser_entry(ev)) {
                        assert(fen_chars@ == ev.fen);
                        assert(j1 == j0 + qstr(ev.fen).len()) by {
                            assert(v@.subrange(j0 as int, j1 as int).len() == qstr(
                                fen_chars@,
                            ).len());
                        }
                        assert(at(v@, j2 as int, qstr(ev.uci)));
                    }
                }
            }
            return None;
        },
    };
    let j4 = match expect_lit(v, j3, "}") {
        Some(j) => j,
        None => {
            proof {
                assert forall|ev: RecordView| !at(v@, gi, ser_entry(ev)) by {
                    if at(v@, gi, ser_entry(ev)) {
                        assert(fen_chars@ == ev.fen);
                        assert(j1 == j0 + qstr(ev.fen).len()) by {
                            assert(v@.subrange(j0 as int, j1 as int).len() == qstr(
                                fen_chars@,
                            ).len());
                        }
                        assert(uci_chars@ == ev.uci);
                        assert(j3 == j2 + qstr(ev.uci).len()) by {
                            assert(v@.subrange(j2 as int, j3 as int).len() == qstr(
                                uci_chars@,
                            ).len());
                        }
                        assert(at(v@, j3 as int, seq!['}']));
                        assert(at(v@, j3 as int, "}"@)) by {
                            reveal_strlit("}");
                            assert("}"@ =~= seq!['}']);
                        }
                    }
                }
            }
            return None;
        },
    };
    let e = HistoryEntry {
        fen: crate::text::chars_to_string(&fen_chars),
        uci_move: crate::text::chars_to_string(&uci_chars),
    };
    proof {
        reveal_strlit("}");
        assert(v@.subrange(gi, j4 as int) =~= v@.subrange(gi, j0 as int) + v@.subrange(
            j0 as int,
            j1 as int,
        ) + v@.subrange(j1 as int, j2 as int) + v@.subrange(j2 as int, j3 as int) + v@.subrange(
            j3 as int,
            j4 as int,
        ));
        assert(v@.subrange(j3 as int, j4 as int) =~= seq!['}']);
        assert(v@.subrange(gi, j4 as int) =~= ser_entry(e@));
        assert forall|ev: RecordView| at(v@, gi, ser_entry(ev)) implies e@ == ev by {
            assert(fen_chars@ == ev.fen);
            assert(uci_chars@ == ev.uci);
        }
    }
    Some((e, j4))
}

/// The continuation of a document list after its first entry: each further
/// entry behind a comma.
pub open spec fn ser_sep_entries(h: Seq<RecordView>) -> Seq<char>
    decreases h.len(),
{
    if h.len() == 0 {
        Seq::empty()
    } else {
        seq![','] + ser_entry(h[0]) + ser_sep_entries(h.subrange(1, h.len() as int))
    }
}

/// A nonempty document list with its closing bracket.
pub open spec fn ser_items(h: Seq<RecordView>) -> Seq<char> {
    ser_entry(h[0]) + (ser_sep_entries(h.subrange(1, h.len() as int)) + seq![']'])
}

proof fn lemma_sep_snoc(t: Seq<RecordView>)
    requires
        t.len() >= 1,
    ensures
        ser_sep_entries(t) == ser_sep_entries(t.drop_last()) + seq![','] + ser_entry(t.last()),
    decreases t.len(),
{
    if t.len() == 1 {
        assert(t.drop_last().len() == 0);
        assert(t.subrange(1, t.len() as int).len() == 0);
        assert(ser_sep_entries(t.drop_last()) == Seq::<char>::empty());
        assert(ser_sep_entries(t.subrange(1, t.len() as int)) == Seq::<char>::empty());
        assert(ser_sep_entries(t) == seq![','] + ser_entry(t[0]) + ser_sep_entries(
            t.subrange(1, t.len() as int),
        ));
        assert(ser_sep_entries(t) =~= ser_sep_entries(t.drop_last()) + seq![','] + ser_entry(
            t.last(),
        ));
    } else {
        let t1 = t.subrange(1, t.len() as int);
        lemma_sep_snoc(t1);
        assert(t1.drop_last() =~= t.drop_last().subrange(1, t.drop_last().len() as int));
        assert(t1.last() == t.last());
        assert(t.drop_last().len() >= 1);
        assert(t.drop_last()[0] == t[0]);
        assert(ser_sep_entries(t.drop_last()) == seq![','] + ser_entry(t[0]) + ser_sep_entries(
            t1.drop_last(),
        ));
        assert(ser_sep_entries(t) =~= ser_sep_entries(t.drop_last()) + seq![','] + ser_entry(
            t.last(),
        ));
    }
}

proof fn lemma_history_items(h: Seq<RecordView>)
    requires
        h.len() >= 1,
    ensures
        ser_history(h) + seq![']'] == ser_items(h),
    decreases h.len(),
{
    if h.len() == 1 {
        assert(h.subrange(1, h.len() as int).len() == 0);
        assert(ser_sep_entries(h.subrange(1, h.len() as int)) == Seq::<char>::empty());
        assert(ser_history(h) == ser_entry(h[0]));
        assert(ser_history(h) + seq![']'] =~= ser_items(h));
    } else {
        let dl = h.drop_last();
        let h1 = h.subrange(1, h.len() as int);
        let dl1 = dl.subrange(1, dl.len() as int);
        lemma_history_items(dl);
        lemma_sep_snoc(h1);
        assert(dl[0] == h[0]);
        assert(h1.drop_last() =~= dl1);
        assert(h1.last() == h.last());
        let x = ser_history(dl);
        let y = ser_entry(dl[0]) + ser_sep_entries(dl1);
        assert(ser_items(dl) =~= y + seq![']']);
        assert(x + seq![']'] == y + seq![']']);
        assert(x =~= y) by {
            assert(x.len() == y.len());
            assert forall|k: int| 0 <= k < x.len() implies x[k] == y[k] by {
                assert((x + seq![']'])[k] == x[k]);
                assert((y + seq![']'])[k] == y[k]);
            }
        }
        assert(ser_history(h) == x + seq![','] + ser_entry(h.last()));
        assert(ser_sep_entries(h1) == ser_sep_entries(dl1) + seq![','] + ser_entry(h.last()));
        assert(ser_history(h) + seq![']'] =~= ser_items(h));
    }
}

proof fn lemma_items_split(v: Seq<char>, i: int, h: Seq<RecordView>)
    requires
        h.len() >= 1,
        at(v, i, ser_items(h)),
    ensures
        at(v, i, ser_entry(h[0])),
        at(
            v,
            i + ser_entry(h[0]).len(),
            ser_sep_entries(h.subrange(1, h.len() as int)) + seq![']'],
        ),
{
    lemma_at_split(
        v,
        i,
        ser_entry(h[0]),
        ser_sep_entries(h.subrange(1, h.len() as int)) + seq![']'],
    );
}

proof fn lemma_sep_head(v: Seq<char>, j: int, h1: Seq<RecordView>)
    requires
        at(v, j, ser_sep_entries(h1) + seq![']']),
    ensures
        h1.len() == 0 ==> j < v.len() && v[j] == ']',
        h1.len() >= 1 ==> j < v.len() && v[j] == ',' && at(v, j + 1, ser_items(h1)),
{
    let w = ser_sep_entries(h1) + seq![']'];
    assert(v[j] == w[0]) by {
        assert(v.subrange(j, j + w.len() as int)[0] == w[0]);
    }
    if h1.len() == 0 {
        assert(ser_sep_entries(h1) == Seq::<char>::empty());
        assert(w[0] == ']');
    } else {
        assert(ser_sep_entries(h1) == seq![','] + ser_entry(h1[0]) + ser_sep_entries(
            h1.subrange(1, h1.len() as int),
        ));
        assert(w =~= seq![','] + ser_items(h1));
        assert(w[0] == ',');
        lemma_at_split(v, j, seq![','], ser_items(h1));
    }
}

#[verifier::rlimit(100)]
fn parse_entry_seq(v: &Vec<char>, i: usize) -> (r: Option<(Vec<HistoryEntry>, usize)>)
    requires
        i <= v@.len(),
    ensures
        match r {
            Some(p) => i < p.1 <= v@.len() && p.0@.len() >= 1 && v@.subrange(
                i as int,
                p.1 as int,
            ) == ser_items(p.0@.map_values(|e: HistoryEntry| e@)),
            None => true,
        },
        forall|h: Seq<RecordView>|
            (h.len() >= 1 && at(v@, i as int, #[trigger] ser_items(h))) ==> (r is Some && (
            r->0).0@.map_values(|e: HistoryEntry| e@) == h),
    decreases v@.len() - i,
{
    let ghost gi = i as int;
    proof {
        assert forall|h: Seq<RecordView>|
            h.len() >= 1 && at(v@, gi, ser_items(h)) implies at(v@, gi, ser_entry(h[0])) && at(
            v@,
            gi + ser_entry(h[0]).len(),
            ser_sep_entries(h.subrange(1, h.len() as int)) + seq![']'],
        ) by {
            lemma_items_split(v@, gi, h);
        }
    }
    let (e0, j) = match parse_entry_at(v, i) {
        Some(p) => p,
        None => {
            return None;
        },
    };
    proof {
        assert forall|h: Seq<RecordView>|
            h.len() >= 1 && at(v@, gi, ser_items(h)) implies e0@ == h[0] && j == i + ser_entry(
            h[0],
        ).len() by {
            assert(v@.subrange(gi, j as int).len() == ser_entry(e0@).len());
        }
    }
    if j < v.len() && v[j] == ']' {
        let mut es: Vec<HistoryEntry> = Vec::new();
        es.push(e0);
        proof {
            let hv = es@.map_values(|e: HistoryEntry| e@);
            assert(hv.len() == 1 && hv[0] == e0@);
            assert(hv.subrange(1, 1).len() == 0);
            assert(v@.subrange(gi, j as int + 1) =~= v@.subrange(gi, j as int) + seq![v@[j as int]]);
            assert(v@.subrange(gi, j as int + 1) =~= ser_items(hv));
            assert forall|h: Seq<RecordView>|
                h.len() >= 1 && at(v@, gi, ser_items(h)) implies hv == h by {
                let h1 = h.subrange(1, h.len() as int);
                lemma_sep_head(v@, j as int, h1);
                assert(h1.len() == 0);
                assert(hv =~= h);
            }
        }
        return Some((es, j + 1));
    }
    if j < v.len() && v[j] == ',' {
        match parse_entry_seq(v, j + 1) {
            Some((rest, k)) => {
                let mut es: Vec<HistoryEntry> = Vec::new();
                es.push(e0);
                let mut r2 = rest;
                let ghost rv = r2@.map_values(|e: HistoryEntry| e@);
                es.append(&mut r2);
                proof {
                    let hv = es@.map_values(|e: HistoryEntry| e@);
                    assert(hv =~= seq![e0@] + rv);
                    assert(hv[0] == e0@);
                    assert(hv.subrange(1, hv.len() as int) =~= rv);
                    assert(rv.len() >= 1);
                    assert(ser_sep_entries(hv.subrange(1, hv.len() as int)) == seq![',']
                        + ser_entry(rv[0]) + ser_sep_entries(rv.subrange(1, rv.len() as int)));
                    assert(v@.subrange(gi, k as int) =~= v@.subrange(gi, j as int) + seq![v@[j as int]] + v@.subrange(j as int + 1, k as int));
                    assert(v@.subrange(j as int + 1, k as int) == ser_items(rv));
                    assert(v@.subrange(gi, k as int) =~= ser_items(hv));
                    assert forall|h: Seq<RecordView>|
                        h.len() >= 1 && at(v@, gi, ser_items(h)) implies hv == h by {
                        let h1 = h.subrange(1, h.len() as int);
                        lemma_sep_head(v@, j as int, h1);
                        assert(h1.len() >= 1);
                        assert(at(v@, j as int + 1, ser_items(h1)));
                        assert(rv == h1);
                        assert(hv =~= h);
                    }
                }
                Some((es, k))
            },
            None => {
                proof {
                    assert forall|h: Seq<RecordView>|
                        !(h.len() >= 1 && at(v@, gi, ser_items(h))) by {
                        if h.len() >= 1 && at(v@, gi, ser_items(h)) {
                            let h1 = h.subrange(1, h.len() as int);
                            lemma_sep_head(v@, j as int, h1);
                            assert(h1.len() >= 1);
                            assert(at(v@, j as int + 1, ser_items(h1)));
                        }
                    }
                }
                None
            },
        }
    } else {
        proof {
            assert forall|h: Seq<RecordView>| !(h.len() >= 1 && at(v@, gi, ser_items(h))) by {
                if h.len() >= 1 && at(v@, gi, ser_items(h)) {
                    let h1 = h.subrange(1, h.len() as int);
                    lemma_sep_head(v@, j as int, h1);
                }
            }
        }
        None
    }
}

fn parse_entries_at(v: &Vec<char>, i: usize) -> (r: Option<(Vec<HistoryEntry>, usize)>)
    requires
        i <= v@.len(),
    ensures
        match r {
            Some(p) => i < p.1 <= v@.len() && v@.subrange(i as int, p.1 as int) == ser_history(
                p.0@.map_values(|e: HistoryEntry| e@),
            ) + seq![']'],
            None => true,
        },
        forall|h: Seq<RecordView>|
            at(v@, i as int, #[trigger] ser_history(h) + seq![']']) ==> (r is Some && (
            r->0).0@.map_values(|e: HistoryEntry| e@) == h),
{
    let ghost gi = i as int;
    if i < v.len() && v[i] == ']' {
        let es: Vec<HistoryEntry> = Vec::new();
        proof {
            let hv = es@.map_values(|e: HistoryEntry| e@);
            assert(hv.len() == 0);
            assert(ser_history(hv) + seq![']'] =~= seq![']']);
            assert(v@.subrange(gi, gi + 1) =~= seq![']']);
            assert forall|h: Seq<RecordView>|
                at(v@, gi, ser_history(h) + seq![']']) implies hv == h by {
                if h.len() >= 1 {
                    lemma_history_items(h);
                    assert(ser_entry(h[0])[0] == '{') by {
                        lemma_entry_group(h[0]);
                        reveal_strlit("{\"fen\":\"");
                        assert("{\"fen\":\""@[0] == '{');
                        assert(ser_entry(h[0]).len() >= 1);
                    }
                    let w = ser_history(h) + seq![']'];
                    assert(w[0] == ser_items(h)[0]);
                    assert(ser_items(h)[0] == ser_entry(h[0])[0]);
                    assert(v@[gi] == w[0]) by {
                        assert(v@.subrange(gi, gi + w.len() as int)[0] == w[0]);
                    }
                }
                assert(hv =~= h);
            }
        }
        return Some((es, i + 1));
    }
    match parse_entry_seq(v, i) {
        Some((es, k)) => {
            proof {
                let hv = es@.map_values(|e: HistoryEntry| e@);
                lemma_history_items(hv);
                assert forall|h: Seq<RecordView>|
                    at(v@, gi, ser_history(h) + seq![']']) implies hv == h by {
                    if h.len() == 0 {
                        let w = ser_history(h) + seq![']'];
                        assert(w =~= seq![']']);
                        assert(v@[gi] == w[0]) by {
                            assert(v@.subrange(gi, gi + w.len() as int)[0] == w[0]);
                        }
                        assert(gi < v@.len());
                        assert(false);
                    }
                    lemma_history_items(h);
                    assert(at(v@, gi, ser_items(h)));
                }
            }
            Some((es, k))
        },
        None => {
            proof {
                assert forall|h: Seq<RecordView>|
                    !at(v@, gi, ser_history(h) + seq![']']) by {
                    if at(v@, gi, ser_history(h) + seq![']']) {
                        if h.len() == 0 {
                            let w = ser_history(h) + seq![']'];
                            assert(w =~= seq![']']);
                            assert(v@[gi] == w[0]) by {
                                assert(v@.subrange(gi, gi + w.len() as int)[0] == w[0]);
                            }
                            assert(gi < v@.len());
                        } else {
                            lemma_history_items(h);
                            assert(at(v@, gi, ser_items(h)));
                        }
                    }
                }
            }
            None
        },
    }
}

proof fn lemma_doc_group(b: Seq<char>, h: Seq<RecordView>, d: u64)
    ensures
        ser_doc(b, h, d) == "{\"position\":\""@ + (qstr(b) + (",\"history\":["@ + ((ser_history(
            h,
        ) + seq![']']) + (",\"date\":"@ + (dec_digits(d as nat) + seq!['}']))))),
{
    reveal_strlit(",\"date\":");
    reveal_strlit("],\"date\":");
    assert(seq![']'] + ",\"date\":"@ =~= "],\"date\":"@);
    assert(ser_doc(b, h, d) =~= "{\"position\":\""@ + (qstr(b) + (",\"history\":["@ + ((
    ser_history(h) + seq![']']) + (",\"date\":"@ + (dec_digits(d as nat) + seq!['}']))))));
}

/// Reads a session document: the position text, the ledger verbatim, and the
/// creation time. It succeeds exactly on the texts the writer produces, and
/// then returns the fields the document encodes.
#[verifier::rlimit(80)]
pub fn parse_doc(text: &str) -> (r: Option<(String, Vec<HistoryEntry>, u64)>)
    ensures
        match r {
            Some(p) => text@ == ser_doc(p.0@, p.1@.map_values(|e: HistoryEntry| e@), p.2),
            None => true,
        },
        forall|b: Seq<char>, h: Seq<RecordView>, d: u64|
            text@ == ser_doc(b, h, d) ==> (r is Some && (r->0).0@ == b && (
            r->0).1@.map_values(|e: HistoryEntry| e@) == h && (r->0).2 == d),
{
    let v = crate::text::string_to_chars(text);
    proof {
        assert forall|b: Seq<char>, h: Seq<RecordView>, d: u64|
            text@ == ser_doc(b, h, d) implies {
            let a1 = "{\"position\":\""@;
            let a2 = qstr(b);
            let a3 = ",\"history\":["@;
            let a4 = ser_history(h) + seq![']'];
            let a5 = ",\"date\":"@;
            let a6 = dec_digits(d as nat);
            &&& at(v@, 0, a1)
            &&& at(v@, a1.len() as int, a2)
            &&& at(v@, (a1.len() + a2.len()) as int, a3)
            &&& at(v@, (a1.len() + a2.len() + a3.len()) as int, a4)
            &&& at(v@, (a1.len() + a2.len() + a3.len() + a4.len()) as int, a5)
            &&& at(v@, (a1.len() + a2.len() + a3.len() + a4.len() + a5.len()) as int, a6)
            &&& at(v@, (a1.len() + a2.len() + a3.len() + a4.len() + a5.len() + a6.len()) as int, seq![
                '}',
            ])
            &&& v@.len() == a1.len() + a2.len() + a3.len() + a4.len() + a5.len() + a6.len() + 1
        } by {
            lemma_doc_group(b, h, d);
            let a1 = "{\"position\":\""@;
            let a2 = qstr(b);
            let a3 = ",\"history\":["@;
            let a4 = ser_history(h) + seq![']'];
            let a5 = ",\"date\":"@;
            let a6 = dec_digits(d as nat);
            assert(at(v@, 0, v@)) by {
                assert(v@.subrange(0, v@.len() as int) == v@);
            }
            lemma_at_split(v@, 0, a1, a2 + (a3 + (a4 + (a5 + (a6 + seq!['}'])))));
            lemma_at_split(v@, a1.len() as int, a2, a3 + (a4 + (a5 + (a6 + seq!['}']))));
            lemma_at_split(v@, (a1.len() + a2.len()) as int, a3, a4 + (a5 + (a6 + seq!['}'])));
            lemma_at_split(v@, (a1.len() + a2.len() + a3.len()) as int, a4, a5 + (a6 + seq!['}']));
            lemma_at_split(v@, (a1.len() + a2.len() + a3.len() + a4.len()) as int, a5, a6 + seq!['}']);
            lemma_at_split(
                v@,
                (a1.len() + a2.len() + a3.len() + a4.len() + a5.len()) as int,
                a6,
                seq!['}'],
            );
        }
    }
    let j0 = match expect_lit(&v, 0, "{\"position\":\"") {
        Some(j) => j,
        None => {
            return None;
        },
    };
    let (pos_chars, j1) = match parse_string_at(&v, j0) {
        Some(p) => p,
        None => {
            return None;
        },
    };
    proof {
        assert forall|b: Seq<char>, h: Seq<RecordView>, d: u64|
            text@ == ser_doc(b, h, d) implies pos_chars@ == b && j1 == j0 + qstr(b).len() by {
            assert(at(v@, j0 as int, qstr(b)));
            assert(v@.subrange(j0 as int, j1 as int).len() == qstr(pos_chars@).len());
        }
    }
    let j2 = match expect_lit(&v, j1, ",\"history\":[") {
        Some(j) => j,
        None => {
            return None;
        },
    };
    let (entries, j3) = match parse_entries_at(&v, j2) {
        Some(p) => p,
        None => {
            return None;
        },
    };
    proof {
        assert forall|b: Seq<char>, h: Seq<RecordView>, d: u64|
            text@ == ser_doc(b, h, d) implies entries@.map_values(|e: HistoryEntry| e@) == h
            && j3 == j2 + (ser_history(h) + seq![']']).len() by {
            assert(at(v@, j2 as int, ser_history(h) + seq![']']));
            assert(v@.subrange(j2 as int, j3 as int).len() == (ser_history(
                entries@.map_values(|e: HistoryEntry| e@),
            ) + seq![']']).len());
        }
    }
    let j4 = match expect_lit(&v, j3, ",\"date\":") {
        Some(j) => j,
        None => {
            return None;
        },
    };
    let (date, j5) = match parse_u64_at(&v, j4) {
        Some(p) => p,
        None => {
            proof {
                assert forall|b: Seq<char>, h: Seq<RecordView>, d: u64|
                    text@ != ser_doc(b, h, d) by {
                    if text@ == ser_doc(b, h, d) {
                        assert(at(v@, j4 as int, dec_digits(d as nat)));
                        assert(v@[j4 + dec_digits(d as nat).len()] == '}');
                        assert(!is_dec_digit('}'));
                    }
                }
            }
            return None;
        },
    };
    if !(j5 < v.len() && v[j5] == '}' && j5 + 1 == v.len()) {
        proof {
            assert forall|b: Seq<char>, h: Seq<RecordView>, d: u64|
                text@ != ser_doc(b, h, d) by {
                if text@ == ser_doc(b, h, d) {
                    assert(at(v@, j4 as int, dec_digits(d as nat)));
                    assert(v@[j4 + dec_digits(d as nat).len()] == '}');
                    assert(!is_dec_digit('}'));
                    assert(date == d);
                    assert(j5 == j4 + dec_digits(d as nat).len()) by {
                        assert(v@.subrange(j4 as int, j5 as int).len() == dec_digits(
                            date as nat,
                        ).len());
                        assert(dec_digits(date as nat) == dec_digits(d as nat));
                    }
                }
            }
        }
        return None;
    }
    let pos = crate::text::chars_to_string(&pos_chars);
    proof {
        reveal_strlit(",\"date\":");
        reveal_strlit("],\"date\":");
        let hv = entries@.map_values(|e: HistoryEntry| e@);
        let p1 = "{\"position\":\""@;
        assert(v@.subrange(0, j1 as int) =~= v@.subrange(0, j0 as int) + v@.subrange(
            j0 as int,
            j1 as int,
        ));
        assert(v@.subrange(0, j1 as int) =~= p1 + esc(pos@) + seq!['"']);
        assert(v@.subrange(0, j2 as int) =~= v@.subrange(0, j1 as int) + v@.subrange(
            j1 as int,
            j2 as int,
        ));
        assert(v@.subrange(0, j2 as int) =~= p1 + esc(pos@) + seq!['"'] + ",\"history\":["@);
        assert(v@.subrange(0, j3 as int) =~= v@.subrange(0, j2 as int) + v@.subrange(
            j2 as int,
            j3 as int,
        ));
        assert(v@.subrange(0, j3 as int) =~= p1 + esc(pos@) + seq!['"'] + ",\"history\":["@
            + ser_history(hv) + seq![']']);
        assert(v@.subrange(0, j4 as int) =~= v@.subrange(0, j3 as int) + v@.subrange(
            j3 as int,
            j4 as int,
        ));
        assert(seq![']'] + ",\"date\":"@ =~= "],\"date\":"@);
        assert(v@.subrange(0, j4 as int) =~= p1 + esc(pos@) + seq!['"'] + ",\"history\":["@
            + ser_history(hv) + "],\"date\":"@);
        assert(v@.subrange(0, j5 as int) =~= v@.subrange(0, j4 as int) + v@.subrange(
            j4 as int,
            j5 as int,
        ));
        assert(v@.subrange(j4 as int, j5 as int) == dec_digits(date as nat)) by {
            assert(v@.subrange(j4 as int, j4 + dec_digits(date as nat).len() as int) =~= 
                v@.subrange(j4 as int, j5 as int));
        }
        assert(v@ =~= v@.subrange(0, j5 as int) + seq![v@[j5 as int]]);
        assert(text@ =~= ser_doc(pos@, hv, date));
        assert forall|b: Seq<char>, h: Seq<RecordView>, d: u64|
            text@ == ser_doc(b, h, d) implies pos@ == b && hv == h && date == d by {
            assert(at(v@, j4 as int, dec_digits(d as nat)));
            assert(v@[j4 + dec_digits(d as nat).len()] == '}');
            assert(!is_dec_digit('}'));
        }
    }
    Some((pos, entries, date))
}

} // verus!
