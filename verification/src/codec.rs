//! A textual encoding of map descriptors: every number is written in
//! decimal and closed by `;`, every string and list is length-prefixed.
//! Parsing is the exact inverse of serialization, which is proved as a
//! round-trip law.

use vstd::prelude::*;
use crate::file::TilemapFile;
use vstd::string::StrSliceExecFns;
use vstd::string::StringExecFns;
use vstd::arithmetic::div_mod::{lemma_fundamental_div_mod, lemma_mod_bound};
use vstd::seq_lib::lemma_concat_associative;

verus! {

/// Decimal digits may span at most this many characters, which keeps
/// every accepted number below `10^19 <= u64::MAX`.
pub const MAX_DIGITS: usize = 19;

/// Powers of ten.
pub open spec fn pow10(e: nat) -> int
    decreases e,
{
    if e == 0 {
        1
    } else {
        10 * pow10((e - 1) as nat)
    }
}

/// True for the characters `'0'` through `'9'`.
pub open spec fn is_digit(c: char) -> bool {
    48 <= c as int <= 57
}

/// Numeric value of a digit character.
pub open spec fn dval(c: char) -> int {
    c as int - 48
}

/// The digit character for a value below ten.
pub open spec fn spec_digit(d: nat) -> char {
    if d == 0 {
        '0'
    } else if d == 1 {
        '1'
    } else if d == 2 {
        '2'
    } else if d == 3 {
        '3'
    } else if d == 4 {
        '4'
    } else if d == 5 {
        '5'
    } else if d == 6 {
        '6'
    } else if d == 7 {
        '7'
    } else if d == 8 {
        '8'
    } else {
        '9'
    }
}

/// Decimal representation of a number, most significant digit first.
pub open spec fn dec_rep(n: nat) -> Seq<char>
    decreases n,
{
    if n < 10 {
        seq![spec_digit(n)]
    } else {
        dec_rep(n / 10) + seq![spec_digit(n % 10)]
    }
}

/// Serialized form of one number: its decimal digits closed by `;`.
pub open spec fn ser_nat(n: nat) -> Seq<char> {
    dec_rep(n) + seq![';']
}

/// Index of the first non-digit character at or after `i`.
pub open spec fn digits_end(s: Seq<char>, i: int) -> int
    decreases s.len() - i,
{
    if 0 <= i < s.len() && is_digit(s[i]) {
        digits_end(s, i + 1)
    } else {
        i
    }
}

/// Value of the digit run `s[i..j]`.
pub open spec fn val_of(s: Seq<char>, i: int, j: int) -> int
    decreases j - i,
{
    if j <= i {
        0
    } else {
        val_of(s, i, j - 1) * 10 + dval(s[j - 1])
    }
}

/// Parses one number at `i`: a nonempty digit run of bounded length
/// followed by `;`. Returns the value and the position after the `;`.
pub open spec fn sp_nat(s: Seq<char>, i: int) -> Option<(nat, int)> {
    let e = digits_end(s, i);
    if i < e && e - i <= MAX_DIGITS && e < s.len() && s[e] == ';' {
        Some((val_of(s, i, e) as nat, e + 1))
    } else {
        None
    }
}

/// `t` occurs in `s` starting at `i`.
pub open spec fn at(s: Seq<char>, i: int, t: Seq<char>) -> bool {
    &&& 0 <= i
    &&& i + t.len() <= s.len()
    &&& s.subrange(i, i + t.len()) == t
}

/// Splitting an occurrence of a concatenation.
pub proof fn lemma_at_split(s: Seq<char>, i: int, a: Seq<char>, b: Seq<char>)
    requires
        at(s, i, a + b),
    ensures
        at(s, i, a),
        at(s, i + a.len(), b),
{
    let whole = s.subrange(i, i + (a + b).len());
    assert forall|k: int| 0 <= k < a.len() implies s.subrange(i, i + a.len())[k] == a[k] by {
        assert(whole[k] == (a + b)[k]);
    }
    assert(s.subrange(i, i + a.len()) =~= a);
    assert forall|k: int|
        0 <= k < b.len() implies s.subrange(i + a.len(), i + a.len() + b.len())[k] == b[k] by {
        assert(whole[a.len() + k] == (a + b)[a.len() + k]);
    }
    assert(s.subrange(i + a.len(), i + a.len() + b.len()) =~= b);
}

/// Every character of a decimal representation is a digit, and the run
/// is short enough for the parser whenever the value is below `10^19`.
pub proof fn lemma_dec_rep_digits(n: nat)
    ensures
        1 <= dec_rep(n).len(),
        forall|k: int| 0 <= k < dec_rep(n).len() ==> is_digit(#[trigger] dec_rep(n)[k]),
        n < pow10(dec_rep(n).len() as nat),
        n >= 10 ==> dec_rep(n).len() >= 2,
    decreases n,
{
    if n < 10 {
        assert(pow10(0) == 1);
        assert(pow10(1) == 10);
    } else {
        lemma_dec_rep_digits(n / 10);
        assert(n < pow10(dec_rep(n).len() as nat)) by {
            let l = dec_rep(n / 10).len() as nat;
            assert(pow10(l + 1) == 10 * pow10(l));
            lemma_fundamental_div_mod(n as int, 10);
            lemma_mod_bound(n as int, 10);
            assert(n == 10 * (n as int / 10) + n % 10);
            assert(n as int / 10 <= pow10(l) - 1);
        }
    }
}

/// A value below `10^19` has at most `MAX_DIGITS` decimal digits.
pub proof fn lemma_dec_rep_len(n: nat)
    requires
        n < pow10(MAX_DIGITS as nat),
    ensures
        dec_rep(n).len() <= MAX_DIGITS,
{
    lemma_dec_rep_digits(n);
    if dec_rep(n).len() > MAX_DIGITS {
        // A representation longer than the cap would put the value at
        // or above the cap's power of ten.
        if n == 0 {
            assert(dec_rep(0).len() == 1);
        } else {
            lemma_dec_rep_longer(n, MAX_DIGITS as nat);
        }
    }
}

/// A number whose representation exceeds `d` digits is at least
/// `pow(10, d)`.
proof fn lemma_dec_rep_longer(n: nat, d: nat)
    requires
        n >= 1,
        dec_rep(n).len() > d,
    ensures
        n >= pow10(d),
    decreases d,
{
    if d == 0 {
        assert(pow10(0) == 1);
    } else {
        assert(dec_rep(n).len() >= 2);
        assert(n >= 10) by {
            if n < 10 {
                assert(dec_rep(n).len() == 1);
            }
        }
        assert(dec_rep(n) == dec_rep(n / 10) + seq![spec_digit(n % 10)]);
        assert(dec_rep(n / 10).len() > d - 1);
        lemma_dec_rep_longer(n / 10, (d - 1) as nat);
        assert(pow10(d) == 10 * pow10((d - 1) as nat));
        lemma_fundamental_div_mod(n as int, 10);
        lemma_mod_bound(n as int, 10);
    }
}

/// A digit run bounds the scan: if `s[i..j]` are digits and `s[j]` is
/// not, the scan started at `i` stops exactly at `j`.
proof fn lemma_digits_end_run(s: Seq<char>, i: int, j: int)
    requires
        0 <= i <= j <= s.len(),
        forall|k: int| i <= k < j ==> is_digit(#[trigger] s[k]),
        j == s.len() || !is_digit(s[j]),
    ensures
        digits_end(s, i) == j,
    decreases j - i,
{
    if i < j {
        lemma_digits_end_run(s, i + 1, j);
    }
}

/// Value of a digit run that spells `dec_rep(n)`: the run reads back as
/// `n`.
proof fn lemma_val_of_rep(s: Seq<char>, i: int, n: nat)
    requires
        at(s, i, dec_rep(n)),
    ensures
        val_of(s, i, i + dec_rep(n).len()) == n,
    decreases n,
{
    let m = dec_rep(n).len() as int;
    if n < 10 {
        assert(s.subrange(i, i + 1)[0] == s[i]);
        assert(s[i] == spec_digit(n));
        assert(val_of(s, i, i) == 0);
        assert(val_of(s, i, i + 1) == dval(s[i]));
    } else {
        lemma_at_split(s, i, dec_rep(n / 10), seq![spec_digit(n % 10)]);
        lemma_val_of_rep(s, i, n / 10);
        assert(s[i + m - 1] == spec_digit(n % 10)) by {
            assert(s.subrange(i + m - 1, i + m)[0] == s[i + m - 1]);
        }
        lemma_mod_bound(n as int, 10);
        assert(dval(spec_digit((n % 10) as nat)) == n % 10);
        lemma_fundamental_div_mod(n as int, 10);
        assert(val_of(s, i, i + m) == val_of(s, i, i + m - 1) * 10 + dval(s[i + m - 1]));
        assert((n / 10) * 10 + n % 10 == n) by (nonlinear_arith)
            requires
                n == 10 * (n as int / 10) + n % 10,
        ;
    }
}

/// Round trip for one number: a serialized number embedded at `i`
/// parses back to the same value, leaving the position after it.
pub proof fn lemma_nat_rt(s: Seq<char>, i: int, n: nat)
    requires
        n < pow10(MAX_DIGITS as nat),
        at(s, i, ser_nat(n)),
    ensures
        sp_nat(s, i) == Some((n, i + ser_nat(n).len())),
{
    let m = dec_rep(n).len() as int;
    lemma_at_split(s, i, dec_rep(n), seq![';']);
    lemma_dec_rep_digits(n);
    lemma_dec_rep_len(n);
    assert(s[i + m] == ';') by {
        assert(s.subrange(i + m, i + m + 1)[0] == s[i + m]);
    }
    assert forall|k: int| i <= k < i + m implies is_digit(#[trigger] s[k]) by {
        assert(s.subrange(i, i + m)[k - i] == s[k]);
        assert(dec_rep(n)[k - i] == s[k]);
    }
    lemma_digits_end_run(s, i, i + m);
    lemma_val_of_rep(s, i, n);
}


/// `pow10` is positive and monotonic.
proof fn lemma_pow10_mono(a: nat, b: nat)
    requires
        a <= b,
    ensures
        1 <= pow10(a) <= pow10(b),
    decreases b,
{
    if b == 0 {
    } else if a == b {
        lemma_pow10_mono((a - 1) as nat, (b - 1) as nat);
    } else {
        lemma_pow10_mono(a, (b - 1) as nat);
    }
}

/// Concrete values of the powers of ten at the parser's digit cap.
proof fn lemma_pow10_vals()
    ensures
        pow10(18) == 0x0DE0_B6B3_A764_0000,
        pow10(19) == 0x8AC7_2304_89E8_0000,
{
    assert(pow10(0) == 1);
    assert(pow10(1) == 10);
    assert(pow10(2) == 100);
    assert(pow10(3) == 1000);
    assert(pow10(4) == 10000);
    assert(pow10(5) == 100000);
    assert(pow10(6) == 1000000);
    assert(pow10(7) == 10000000);
    assert(pow10(8) == 100000000);
    assert(pow10(9) == 1000000000);
    assert(pow10(10) == 10000000000);
    assert(pow10(11) == 100000000000);
    assert(pow10(12) == 1000000000000);
    assert(pow10(13) == 10000000000000);
    assert(pow10(14) == 100000000000000);
    assert(pow10(15) == 1000000000000000);
    assert(pow10(16) == 10000000000000000);
    assert(pow10(17) == 100000000000000000);
    assert(pow10(18) == 1000000000000000000);
    assert(pow10(19) == 10000000000000000000);
}

/// Serialized form of one string: its character count, then the
/// characters themselves.
pub open spec fn ser_str(t: Seq<char>) -> Seq<char> {
    ser_nat(t.len()) + t
}

/// Parses one string at `i`: a count, then that many characters.
pub open spec fn sp_str(s: Seq<char>, i: int) -> Option<(Seq<char>, int)> {
    match sp_nat(s, i) {
        Some((n, j)) => if j + n <= s.len() {
            Some((s.subrange(j, j + n), j + n))
        } else {
            None
        },
        None => None,
    }
}

/// Round trip for one string.
pub proof fn lemma_str_rt(s: Seq<char>, i: int, t: Seq<char>)
    requires
        t.len() < pow10(MAX_DIGITS as nat),
        at(s, i, ser_str(t)),
    ensures
        sp_str(s, i) == Some((t, i + ser_str(t).len())),
{
    lemma_at_split(s, i, ser_nat(t.len()), t);
    lemma_nat_rt(s, i, t.len());
}

/// Appends one decimal digit character.
fn push_digit(out: &mut String, d: u8)
    requires
        d < 10,
    ensures
        final(out)@ == old(out)@ + seq![spec_digit(d as nat)],
{
    if d == 0 {
        out.append("0");
        proof {
            reveal_strlit("0");
            assert("0"@ =~= seq![spec_digit(0)]);
        }
    } else if d == 1 {
        out.append("1");
        proof {
            reveal_strlit("1");
            assert("1"@ =~= seq![spec_digit(1)]);
        }
    } else if d == 2 {
        out.append("2");
        proof {
            reveal_strlit("2");
            assert("2"@ =~= seq![spec_digit(2)]);
        }
    } else if d == 3 {
        out.append("3");
        proof {
            reveal_strlit("3");
            assert("3"@ =~= seq![spec_digit(3)]);
        }
    } else if d == 4 {
        out.append("4");
        proof {
            reveal_strlit("4");
            assert("4"@ =~= seq![spec_digit(4)]);
        }
    } else if d == 5 {
        out.append("5");
        proof {
            reveal_strlit("5");
            assert("5"@ =~= seq![spec_digit(5)]);
        }
    } else if d == 6 {
        out.append("6");
        proof {
            reveal_strlit("6");
            assert("6"@ =~= seq![spec_digit(6)]);
        }
    } else if d == 7 {
        out.append("7");
        proof {
            reveal_strlit("7");
            assert("7"@ =~= seq![spec_digit(7)]);
        }
    } else if d == 8 {
        out.append("8");
        proof {
            reveal_strlit("8");
            assert("8"@ =~= seq![spec_digit(8)]);
        }
    } else {
        out.append("9");
        proof {
            reveal_strlit("9");
            assert("9"@ =~= seq![spec_digit(9)]);
        }
    }
}

/// Appends the decimal digits of `n`.
fn write_dec(out: &mut String, n: u64)
    ensures
        final(out)@ == old(out)@ + dec_rep(n as nat),
    decreases n,
{
    if n < 10 {
        push_digit(out, n as u8);
    } else {
        write_dec(out, n / 10);
        push_digit(out, (n % 10) as u8);
        proof {
            assert(final(out)@ =~= old(out)@ + dec_rep(n as nat));
        }
    }
}

/// Appends one serialized number.
fn write_nat(out: &mut String, n: u64)
    ensures
        final(out)@ == old(out)@ + ser_nat(n as nat),
{
    write_dec(out, n);
    out.append(";");
    proof {
        reveal_strlit(";");
        assert(";"@ =~= seq![';']);
        assert(final(out)@ =~= old(out)@ + ser_nat(n as nat));
    }
}

/// Appends one serialized string.
fn write_str(out: &mut String, t: &str)
    ensures
        final(out)@ == old(out)@ + ser_str(t@),
{
    let n = t.unicode_len();
    write_nat(out, n as u64);
    out.append(t);
    proof {
        assert(final(out)@ =~= old(out)@ + ser_str(t@));
    }
}

/// Reads one serialized number at `i`.
fn parse_nat(s: &str, len: usize, i: usize) -> (r: Option<(u64, usize)>)
    requires
        len == s@.len(),
        i <= len,
    ensures
        match r {
            Some(p) => sp_nat(s@, i as int) == Some((p.0 as nat, p.1 as int)) && i < p.1 <= len,
            None => sp_nat(s@, i as int) is None,
        },
{
    let mut j = i;
    let mut scanning = true;
    while scanning
        invariant
            len == s@.len(),
            i <= j <= len,
            forall|k: int| i <= k < j ==> is_digit(#[trigger] s@[k]),
            scanning ==> digits_end(s@, i as int) == digits_end(s@, j as int),
            !scanning ==> digits_end(s@, i as int) == j,
        decreases len - j + (if scanning {
            1int
        } else {
            0int
        }),
    {
        if j < len {
            let c = s.get_char(j);
            let cu = c as u32;
            if 48 <= cu && cu <= 57 {
                j = j + 1;
            } else {
                scanning = false;
            }
        } else {
            scanning = false;
        }
    }
    if j == i || j - i > MAX_DIGITS || j >= len {
        return None;
    }
    let stop = s.get_char(j);
    if stop != ';' {
        return None;
    }
    proof {
        lemma_pow10_vals();
    }
    let mut acc: u64 = 0;
    let mut k = i;
    while k < j
        invariant
            len == s@.len(),
            i <= k <= j,
            j < len,
            j - i <= MAX_DIGITS,
            forall|q: int| i <= q < j ==> is_digit(#[trigger] s@[q]),
            acc == val_of(s@, i as int, k as int),
            acc < pow10((k - i) as nat),
            pow10(18) == 0x0DE0_B6B3_A764_0000,
            pow10(19) == 0x8AC7_2304_89E8_0000,
        decreases j - k,
    {
        let c = s.get_char(k);
        let d = (c as u32) - 48;
        proof {
            lemma_pow10_mono((k - i + 1) as nat, 19);
            lemma_pow10_mono((k - i) as nat, 18);
        }
        acc = acc * 10 + (d as u64);
        k = k + 1;
    }
    Some((acc, j + 1))
}

/// Reads one serialized string at `i`.
fn parse_str(s: &str, len: usize, i: usize) -> (r: Option<(String, usize)>)
    requires
        len == s@.len(),
        i <= len,
    ensures
        match r {
            Some(p) => sp_str(s@, i as int) == Some((p.0@, p.1 as int)) && i < p.1 <= len,
            None => sp_str(s@, i as int) is None,
        },
{
    match parse_nat(s, len, i) {
        Some((n, j)) => {
            if n > (len - j) as u64 {
                return None;
            }
            let m = n as usize;
            let sub = s.substring_char(j, j + m);
            let t = sub.to_owned();
            Some((t, j + m))
        },
        None => None,
    }
}


/// Spec-level image of a flag legend.
pub open spec fn flags_view(v: Seq<(u32, String)>) -> Seq<(u32, Seq<char>)> {
    v.map_values(|p: (u32, String)| (p.0, p.1@))
}

/// Spec-level image of a tile-kind catalogue.
pub open spec fn tiles_view(v: Seq<crate::file::TileDescriptor>) -> Seq<(Seq<char>, u32)> {
    v.map_values(|d: crate::file::TileDescriptor| (d.image@, d.flags))
}

/// Spec-level image of an exit list.
pub open spec fn exits_view(v: Seq<(u32, u32, String, u32, u32)>) -> Seq<
    (u32, u32, Seq<char>, u32, u32),
> {
    v.map_values(|e: (u32, u32, String, u32, u32)| (e.0, e.1, e.2@, e.3, e.4))
}

/// The mathematical content of a map descriptor record.
pub ghost struct FileView {
    pub name: Seq<char>,
    pub tileset: Seq<char>,
    pub flags: Seq<(u32, Seq<char>)>,
    pub tiles: Seq<(Seq<char>, u32)>,
    pub map: Seq<Seq<u16>>,
    pub start: (u32, u32),
    pub exits: Seq<(u32, u32, Seq<char>, u32, u32)>,
}

/// The view of a descriptor record.
pub open spec fn file_view(f: &TilemapFile) -> FileView {
    FileView {
        name: f.name@,
        tileset: f.tileset@,
        flags: flags_view(f.flags@),
        tiles: tiles_view(f.tiles@),
        map: f.map.deep_view(),
        start: f.data.start,
        exits: exits_view(f.data.exits@),
    }
}

/// Every count and string length of the record is below the parser's
/// numeric cap; every record that fits in memory satisfies this.
pub open spec fn bounded_file(v: FileView) -> bool {
    &&& v.name.len() < pow10(MAX_DIGITS as nat)
    &&& v.tileset.len() < pow10(MAX_DIGITS as nat)
    &&& v.flags.len() < pow10(MAX_DIGITS as nat)
    &&& forall|p: int| 0 <= p < v.flags.len() ==> (#[trigger] v.flags[p]).1.len() < pow10(MAX_DIGITS as nat)
    &&& v.tiles.len() < pow10(MAX_DIGITS as nat)
    &&& forall|p: int| 0 <= p < v.tiles.len() ==> (#[trigger] v.tiles[p]).0.len() < pow10(MAX_DIGITS as nat)
    &&& v.map.len() < pow10(MAX_DIGITS as nat)
    &&& forall|p: int| 0 <= p < v.map.len() ==> (#[trigger] v.map[p]).len() < pow10(MAX_DIGITS as nat)
    &&& v.exits.len() < pow10(MAX_DIGITS as nat)
    &&& forall|p: int| 0 <= p < v.exits.len() ==> (#[trigger] v.exits[p]).2.len() < pow10(MAX_DIGITS as nat)
}

/// Serialized form of a flag legend: key, then label, per entry.
pub open spec fn ser_flag_pairs(ps: Seq<(u32, Seq<char>)>) -> Seq<char>
    decreases ps.len(),
{
    if ps.len() == 0 {
        Seq::empty()
    } else {
        ser_nat(ps[0].0 as nat) + ser_str(ps[0].1) + ser_flag_pairs(ps.drop_first())
    }
}

/// Serialized form of a tile-kind catalogue: image name, then flag
/// bits, per entry.
pub open spec fn ser_tile_descs(ds: Seq<(Seq<char>, u32)>) -> Seq<char>
    decreases ds.len(),
{
    if ds.len() == 0 {
        Seq::empty()
    } else {
        ser_str(ds[0].0) + ser_nat(ds[0].1 as nat) + ser_tile_descs(ds.drop_first())
    }
}

/// Serialized form of one grid row: its cells.
pub open spec fn ser_row(row: Seq<u16>) -> Seq<char>
    decreases row.len(),
{
    if row.len() == 0 {
        Seq::empty()
    } else {
        ser_nat(row[0] as nat) + ser_row(row.drop_first())
    }
}

/// Serialized form of a grid: per row, its width then its cells.
pub open spec fn ser_rows(m: Seq<Seq<u16>>) -> Seq<char>
    decreases m.len(),
{
    if m.len() == 0 {
        Seq::empty()
    } else {
        ser_nat(m[0].len()) + ser_row(m[0]) + ser_rows(m.drop_first())
    }
}

/// Serialized form of an exit list: the five fields of each exit.
pub open spec fn ser_exits(es: Seq<(u32, u32, Seq<char>, u32, u32)>) -> Seq<char>
    decreases es.len(),
{
    if es.len() == 0 {
        Seq::empty()
    } else {
        ser_nat(es[0].0 as nat) + ser_nat(es[0].1 as nat) + ser_str(es[0].2) + ser_nat(
            es[0].3 as nat,
        ) + ser_nat(es[0].4 as nat) + ser_exits(es.drop_first())
    }
}

/// Serialized form of a whole record, fields in declaration order, each
/// list preceded by its length.
pub open spec fn ser_file(v: FileView) -> Seq<char> {
    ser_str(v.name) + (ser_str(v.tileset) + (ser_nat(v.flags.len()) + (ser_flag_pairs(v.flags) + (
    ser_nat(v.tiles.len()) + (ser_tile_descs(v.tiles) + (ser_nat(v.map.len()) + (ser_rows(v.map) + (
    ser_nat(v.start.0 as nat) + (ser_nat(v.start.1 as nat) + (ser_nat(v.exits.len()) + ser_exits(
        v.exits,
    )))))))))))
}

/// Parses `n` flag legend entries at `i`.
pub open spec fn sp_flag_pairs(s: Seq<char>, i: int, n: nat) -> Option<
    (Seq<(u32, Seq<char>)>, int),
>
    decreases n,
{
    if n == 0 {
        Some((Seq::empty(), i))
    } else {
        match sp_nat(s, i) {
            Some((k, j)) => if k <= u32::MAX {
                match sp_str(s, j) {
                    Some((t, j2)) => match sp_flag_pairs(s, j2, (n - 1) as nat) {
                        Some((rest, j3)) => Some((seq![(k as u32, t)] + rest, j3)),
                        None => None,
                    },
                    None => None,
                }
            } else {
                None
            },
            None => None,
        }
    }
}

/// Parses `n` tile-kind entries at `i`.
pub open spec fn sp_tile_descs(s: Seq<char>, i: int, n: nat) -> Option<(Seq<(Seq<char>, u32)>, int)>
    decreases n,
{
    if n == 0 {
        Some((Seq::empty(), i))
    } else {
        match sp_str(s, i) {
            Some((t, j)) => match sp_nat(s, j) {
                Some((k, j2)) => if k <= u32::MAX {
                    match sp_tile_descs(s, j2, (n - 1) as nat) {
                        Some((rest, j3)) => Some((seq![(t, k as u32)] + rest, j3)),
                        None => None,
                    }
                } else {
                    None
                },
                None => None,
            },
            None => None,
        }
    }
}

/// Parses `n` grid cells at `i`.
pub open spec fn sp_row(s: Seq<char>, i: int, n: nat) -> Option<(Seq<u16>, int)>
    decreases n,
{
    if n == 0 {
        Some((Seq::empty(), i))
    } else {
        match sp_nat(s, i) {
            Some((k, j)) => if k <= u16::MAX {
                match sp_row(s, j, (n - 1) as nat) {
                    Some((rest, j2)) => Some((seq![k as u16] + rest, j2)),
                    None => None,
                }
            } else {
                None
            },
            None => None,
        }
    }
}

/// Parses `n` grid rows at `i`, each preceded by its width.
pub open spec fn sp_rows(s: Seq<char>, i: int, n: nat) -> Option<(Seq<Seq<u16>>, int)>
    decreases n,
{
    if n == 0 {
        Some((Seq::empty(), i))
    } else {
        match sp_nat(s, i) {
            Some((c, j)) => match sp_row(s, j, c) {
                Some((row, j2)) => match sp_rows(s, j2, (n - 1) as nat) {
                    Some((rest, j3)) => Some((seq![row] + rest, j3)),
                    None => None,
                },
                None => None,
            },
            None => None,
        }
    }
}

/// Parses `n` exits at `i`.
pub open spec fn sp_exits(s: Seq<char>, i: int, n: nat) -> Option<
    (Seq<(u32, u32, Seq<char>, u32, u32)>, int),
>
    decreases n,
{
    if n == 0 {
        Some((Seq::empty(), i))
    } else {
        match sp_nat(s, i) {
            Some((a, j1)) => if a <= u32::MAX {
                match sp_nat(s, j1) {
                    Some((b, j2)) => if b <= u32::MAX {
                        match sp_str(s, j2) {
                            Some((t, j3)) => match sp_nat(s, j3) {
                                Some((c, j4)) => if c <= u32::MAX {
                                    match sp_nat(s, j4) {
                                        Some((d, j5)) => if d <= u32::MAX {
                                            match sp_exits(s, j5, (n - 1) as nat) {
                                                Some((rest, j6)) => Some(
                                                    (
                                                        seq![
                                                            (
                                                                a as u32,
                                                                b as u32,
                                                                t,
                                                                c as u32,
                                                                d as u32,
                                                            ),
                                                        ] + rest,
                                                        j6,
                                                    ),
                                                ),
                                                None => None,
                                            }
                                        } else {
                                            None
                                        },
                                        None => None,
                                    }
                                } else {
                                    None
                                },
                                None => None,
                            },
                            None => None,
                        }
                    } else {
                        None
                    },
                    None => None,
                }
            } else {
                None
            },
            None => None,
        }
    }
}

/// Parses a whole record at `i`.
pub open spec fn sp_file(s: Seq<char>, i: int) -> Option<(FileView, int)> {
    match sp_str(s, i) {
        Some((name, p1)) => match sp_str(s, p1) {
            Some((tileset, p2)) => match sp_nat(s, p2) {
                Some((nf, p3)) => match sp_flag_pairs(s, p3, nf) {
                    Some((flags, p4)) => match sp_nat(s, p4) {
                        Some((nt, p5)) => match sp_tile_descs(s, p5, nt) {
                            Some((tiles, p6)) => match sp_nat(s, p6) {
                                Some((nm, p7)) => match sp_rows(s, p7, nm) {
                                    Some((map, p8)) => match sp_nat(s, p8) {
                                        Some((sx, p9)) => if sx <= u32::MAX {
                                            match sp_nat(s, p9) {
                                                Some((sy, p10)) => if sy <= u32::MAX {
                                                    match sp_nat(s, p10) {
                                                        Some((ne, p11)) => match sp_exits(
                                                            s,
                                                            p11,
                                                            ne,
                                                        ) {
                                                            Some((exits, p12)) => Some(
                                                                (
                                                                    FileView {
                                                                        name,
                                                                        tileset,
                                                                        flags,
                                                                        tiles,
                                                                        map,
                                                                        start: (
                                                                            sx as u32,
                                                                            sy as u32,
                                                                        ),
                                                                        exits,
                                                                    },
                                                                    p12,
                                                                ),
                                                            ),
                                                            None => None,
                                                        },
                                                        None => None,
                                                    }
                                                } else {
                                                    None
                                                },
                                                None => None,
                                            }
                                        } else {
                                            None
                                        },
                                        None => None,
                                    },
                                    None => None,
                                },
                                None => None,
                            },
                            None => None,
                        },
                        None => None,
                    },
                    None => None,
                },
                None => None,
            },
            None => None,
        },
        None => None,
    }
}


/// Round trip for a flag legend.
pub proof fn lemma_flag_pairs_rt(s: Seq<char>, i: int, ps: Seq<(u32, Seq<char>)>)
    requires
        at(s, i, ser_flag_pairs(ps)),
        forall|p: int| 0 <= p < ps.len() ==> (#[trigger] ps[p]).1.len() < pow10(MAX_DIGITS as nat),
    ensures
        sp_flag_pairs(s, i, ps.len()) == Some((ps, i + ser_flag_pairs(ps).len())),
    decreases ps.len(),
{
    lemma_pow10_vals();
    if ps.len() > 0 {
        let a = ser_nat(ps[0].0 as nat);
        let b = ser_str(ps[0].1);
        let c = ser_flag_pairs(ps.drop_first());
        assert(a + b + c =~= a + (b + c));
        lemma_at_split(s, i, a, b + c);
        lemma_at_split(s, i + a.len(), b, c);
        lemma_nat_rt(s, i, ps[0].0 as nat);
        lemma_str_rt(s, i + a.len(), ps[0].1);
        assert forall|p: int| 0 <= p < ps.drop_first().len() implies (#[trigger] ps.drop_first()[p]).1.len()
            < pow10(MAX_DIGITS as nat) by {
            assert(ps.drop_first()[p] == ps[p + 1]);
        }
        lemma_flag_pairs_rt(s, i + a.len() + b.len(), ps.drop_first());
        assert(seq![(ps[0].0, ps[0].1)] + ps.drop_first() =~= ps);
    }
}

/// Round trip for a tile-kind catalogue.
pub proof fn lemma_tile_descs_rt(s: Seq<char>, i: int, ds: Seq<(Seq<char>, u32)>)
    requires
        at(s, i, ser_tile_descs(ds)),
        forall|p: int| 0 <= p < ds.len() ==> (#[trigger] ds[p]).0.len() < pow10(MAX_DIGITS as nat),
    ensures
        sp_tile_descs(s, i, ds.len()) == Some((ds, i + ser_tile_descs(ds).len())),
    decreases ds.len(),
{
    lemma_pow10_vals();
    if ds.len() > 0 {
        let a = ser_str(ds[0].0);
        let b = ser_nat(ds[0].1 as nat);
        let c = ser_tile_descs(ds.drop_first());
        assert(a + b + c =~= a + (b + c));
        lemma_at_split(s, i, a, b + c);
        lemma_at_split(s, i + a.len(), b, c);
        lemma_str_rt(s, i, ds[0].0);
        lemma_nat_rt(s, i + a.len(), ds[0].1 as nat);
        assert forall|p: int| 0 <= p < ds.drop_first().len() implies (#[trigger] ds.drop_first()[p]).0.len()
            < pow10(MAX_DIGITS as nat) by {
            assert(ds.drop_first()[p] == ds[p + 1]);
        }
        lemma_tile_descs_rt(s, i + a.len() + b.len(), ds.drop_first());
        assert(seq![(ds[0].0, ds[0].1)] + ds.drop_first() =~= ds);
    }
}

/// Round trip for one grid row.
pub proof fn lemma_row_rt(s: Seq<char>, i: int, row: Seq<u16>)
    requires
        at(s, i, ser_row(row)),
    ensures
        sp_row(s, i, row.len()) == Some((row, i + ser_row(row).len())),
    decreases row.len(),
{
    lemma_pow10_vals();
    if row.len() > 0 {
        let a = ser_nat(row[0] as nat);
        let c = ser_row(row.drop_first());
        lemma_at_split(s, i, a, c);
        lemma_nat_rt(s, i, row[0] as nat);
        lemma_row_rt(s, i + a.len(), row.drop_first());
        assert(seq![row[0]] + row.drop_first() =~= row);
    }
}

/// Round trip for a grid.
pub proof fn lemma_rows_rt(s: Seq<char>, i: int, m: Seq<Seq<u16>>)
    requires
        at(s, i, ser_rows(m)),
        forall|p: int| 0 <= p < m.len() ==> (#[trigger] m[p]).len() < pow10(MAX_DIGITS as nat),
    ensures
        sp_rows(s, i, m.len()) == Some((m, i + ser_rows(m).len())),
    decreases m.len(),
{
    if m.len() > 0 {
        let a = ser_nat(m[0].len());
        let b = ser_row(m[0]);
        let c = ser_rows(m.drop_first());
        assert(a + b + c =~= a + (b + c));
        lemma_at_split(s, i, a, b + c);
        lemma_at_split(s, i + a.len(), b, c);
        lemma_nat_rt(s, i, m[0].len());
        lemma_row_rt(s, i + a.len(), m[0]);
        assert forall|p: int| 0 <= p < m.drop_first().len() implies (#[trigger] m.drop_first()[p]).len()
            < pow10(MAX_DIGITS as nat) by {
            assert(m.drop_first()[p] == m[p + 1]);
        }
        lemma_rows_rt(s, i + a.len() + b.len(), m.drop_first());
        assert(seq![m[0]] + m.drop_first() =~= m);
    }
}

/// Round trip for an exit list.
#[verifier::rlimit(100)]
pub proof fn lemma_exits_rt(s: Seq<char>, i: int, es: Seq<(u32, u32, Seq<char>, u32, u32)>)
    requires
        at(s, i, ser_exits(es)),
        forall|p: int| 0 <= p < es.len() ==> (#[trigger] es[p]).2.len() < pow10(MAX_DIGITS as nat),
    ensures
        sp_exits(s, i, es.len()) == Some((es, i + ser_exits(es).len())),
    decreases es.len(),
{
    lemma_pow10_vals();
    if es.len() > 0 {
        let e1 = ser_nat(es[0].0 as nat);
        let e2 = ser_nat(es[0].1 as nat);
        let e3 = ser_str(es[0].2);
        let e4 = ser_nat(es[0].3 as nat);
        let e5 = ser_nat(es[0].4 as nat);
        let c = ser_exits(es.drop_first());
        assert(e1 + e2 + e3 + e4 + e5 + c =~= e1 + (e2 + (e3 + (e4 + (e5 + c)))));
        lemma_at_split(s, i, e1, e2 + (e3 + (e4 + (e5 + c))));
        let i1 = i + e1.len();
        lemma_at_split(s, i1, e2, e3 + (e4 + (e5 + c)));
        let i2 = i1 + e2.len();
        lemma_at_split(s, i2, e3, e4 + (e5 + c));
        let i3 = i2 + e3.len();
        lemma_at_split(s, i3, e4, e5 + c);
        let i4 = i3 + e4.len();
        lemma_at_split(s, i4, e5, c);
        let i5 = i4 + e5.len();
        lemma_nat_rt(s, i, es[0].0 as nat);
        lemma_nat_rt(s, i1, es[0].1 as nat);
        lemma_str_rt(s, i2, es[0].2);
        lemma_nat_rt(s, i3, es[0].3 as nat);
        lemma_nat_rt(s, i4, es[0].4 as nat);
        assert forall|p: int| 0 <= p < es.drop_first().len() implies (#[trigger] es.drop_first()[p]).2.len()
            < pow10(MAX_DIGITS as nat) by {
            assert(es.drop_first()[p] == es[p + 1]);
        }
        lemma_exits_rt(s, i5, es.drop_first());
        assert(seq![(es[0].0, es[0].1, es[0].2, es[0].3, es[0].4)] + es.drop_first() =~= es);
    }
}

/// Round trip for a whole record embedded at `i`.
#[verifier::rlimit(100)]
pub proof fn lemma_file_rt(s: Seq<char>, i: int, v: FileView)
    requires
        bounded_file(v),
        at(s, i, ser_file(v)),
    ensures
        sp_file(s, i) == Some((v, i + ser_file(v).len())),
{
    lemma_pow10_vals();
    let c1 = ser_str(v.name);
    let c2 = ser_str(v.tileset);
    let c3 = ser_nat(v.flags.len());
    let c4 = ser_flag_pairs(v.flags);
    let c5 = ser_nat(v.tiles.len());
    let c6 = ser_tile_descs(v.tiles);
    let c7 = ser_nat(v.map.len());
    let c8 = ser_rows(v.map);
    let c9 = ser_nat(v.start.0 as nat);
    let c10 = ser_nat(v.start.1 as nat);
    let c11 = ser_nat(v.exits.len());
    let c12 = ser_exits(v.exits);
    lemma_at_split(s, i, c1, c2 + (c3 + (c4 + (c5 + (c6 + (c7 + (c8 + (c9 + (c10 + (c11
        + c12))))))))));
    let p1 = i + c1.len();
    lemma_at_split(s, p1, c2, c3 + (c4 + (c5 + (c6 + (c7 + (c8 + (c9 + (c10 + (c11 + c12)))))))));
    let p2 = p1 + c2.len();
    lemma_at_split(s, p2, c3, c4 + (c5 + (c6 + (c7 + (c8 + (c9 + (c10 + (c11 + c12))))))));
    let p3 = p2 + c3.len();
    lemma_at_split(s, p3, c4, c5 + (c6 + (c7 + (c8 + (c9 + (c10 + (c11 + c12)))))));
    let p4 = p3 + c4.len();
    lemma_at_split(s, p4, c5, c6 + (c7 + (c8 + (c9 + (c10 + (c11 + c12))))));
    let p5 = p4 + c5.len();
    lemma_at_split(s, p5, c6, c7 + (c8 + (c9 + (c10 + (c11 + c12)))));
    let p6 = p5 + c6.len();
    lemma_at_split(s, p6, c7, c8 + (c9 + (c10 + (c11 + c12))));
    let p7 = p6 + c7.len();
    lemma_at_split(s, p7, c8, c9 + (c10 + (c11 + c12)));
    let p8 = p7 + c8.len();
    lemma_at_split(s, p8, c9, c10 + (c11 + c12));
    let p9 = p8 + c9.len();
    lemma_at_split(s, p9, c10, c11 + c12);
    let p10 = p9 + c10.len();
    lemma_at_split(s, p10, c11, c12);
    let p11 = p10 + c11.len();
    lemma_str_rt(s, i, v.name);
    lemma_str_rt(s, p1, v.tileset);
    lemma_nat_rt(s, p2, v.flags.len());
    lemma_flag_pairs_rt(s, p3, v.flags);
    lemma_nat_rt(s, p4, v.tiles.len());
    lemma_tile_descs_rt(s, p5, v.tiles);
    lemma_nat_rt(s, p6, v.map.len());
    lemma_rows_rt(s, p7, v.map);
    lemma_nat_rt(s, p8, v.start.0 as nat);
    lemma_nat_rt(s, p9, v.start.1 as nat);
    lemma_nat_rt(s, p10, v.exits.len());
    lemma_exits_rt(s, p11, v.exits);
}

/// Parsing a serialized record reproduces the record and consumes the
/// whole text: the codec round-trips on every bounded record.
pub proof fn lemma_codec_round_trip(v: FileView)
    requires
        bounded_file(v),
    ensures
        sp_file(ser_file(v), 0) == Some((v, ser_file(v).len() as int)),
{
    let s = ser_file(v);
    assert(s.subrange(0, s.len() as int) =~= s);
    lemma_file_rt(s, 0, v);
}


/// Appends the serialized flag legend entries from `k` on.
fn write_flag_pairs(out: &mut String, v: &Vec<(u32, String)>, k: usize)
    requires
        k <= v@.len(),
    ensures
        final(out)@ == old(out)@ + ser_flag_pairs(flags_view(v@).skip(k as int)),
    decreases v@.len() - k,
{
    if k == v.len() {
        proof {
            assert(flags_view(v@).skip(k as int) =~= Seq::<(u32, Seq<char>)>::empty());
            assert(out@ + ser_flag_pairs(flags_view(v@).skip(k as int)) =~= out@);
        }
    } else {
        let p = &v[k];
        write_nat(out, p.0 as u64);
        write_str(out, p.1.as_str());
        write_flag_pairs(out, v, k + 1);
        proof {
            let vw = flags_view(v@);
            assert(vw.skip(k as int).drop_first() =~= vw.skip(k as int + 1));
            assert(vw.skip(k as int)[0] == vw[k as int]);
            assert(out@ =~= old(out)@ + ser_flag_pairs(vw.skip(k as int)));
        }
    }
}

/// Appends the serialized tile-kind entries from `k` on.
fn write_tile_descs(out: &mut String, v: &Vec<crate::file::TileDescriptor>, k: usize)
    requires
        k <= v@.len(),
    ensures
        final(out)@ == old(out)@ + ser_tile_descs(tiles_view(v@).skip(k as int)),
    decreases v@.len() - k,
{
    if k == v.len() {
        proof {
            assert(tiles_view(v@).skip(k as int) =~= Seq::<(Seq<char>, u32)>::empty());
            assert(out@ + ser_tile_descs(tiles_view(v@).skip(k as int)) =~= out@);
        }
    } else {
        let d = &v[k];
        write_str(out, d.image.as_str());
        write_nat(out, d.flags as u64);
        write_tile_descs(out, v, k + 1);
        proof {
            let vw = tiles_view(v@);
            assert(vw.skip(k as int).drop_first() =~= vw.skip(k as int + 1));
            assert(vw.skip(k as int)[0] == vw[k as int]);
            assert(out@ =~= old(out)@ + ser_tile_descs(vw.skip(k as int)));
        }
    }
}

/// Appends the serialized cells of one row from `k` on.
fn write_row(out: &mut String, v: &Vec<u16>, k: usize)
    requires
        k <= v@.len(),
    ensures
        final(out)@ == old(out)@ + ser_row(v@.skip(k as int)),
    decreases v@.len() - k,
{
    if k == v.len() {
        proof {
            assert(v@.skip(k as int) =~= Seq::<u16>::empty());
            assert(out@ + ser_row(v@.skip(k as int)) =~= out@);
        }
    } else {
        write_nat(out, v[k] as u64);
        write_row(out, v, k + 1);
        proof {
            assert(v@.skip(k as int).drop_first() =~= v@.skip(k as int + 1));
            assert(v@.skip(k as int)[0] == v@[k as int]);
            assert(out@ =~= old(out)@ + ser_row(v@.skip(k as int)));
        }
    }
}

/// Appends the serialized grid rows from `k` on.
fn write_rows(out: &mut String, v: &Vec<Vec<u16>>, k: usize)
    requires
        k <= v@.len(),
    ensures
        final(out)@ == old(out)@ + ser_rows(v.deep_view().skip(k as int)),
    decreases v@.len() - k,
{
    if k == v.len() {
        proof {
            assert(v.deep_view().skip(k as int) =~= Seq::<Seq<u16>>::empty());
            assert(out@ + ser_rows(v.deep_view().skip(k as int)) =~= out@);
        }
    } else {
        let row = &v[k];
        proof {
            assert(v.deep_view()[k as int] =~= v@[k as int]@);
        }
        write_nat(out, row.len() as u64);
        write_row(out, row, 0);
        write_rows(out, v, k + 1);
        proof {
            let vw = v.deep_view();
            assert(vw.skip(k as int).drop_first() =~= vw.skip(k as int + 1));
            assert(vw.skip(k as int)[0] == vw[k as int]);
            assert(v@[k as int]@.skip(0) =~= vw[k as int]);
            assert(out@ =~= old(out)@ + ser_rows(vw.skip(k as int)));
        }
    }
}

/// Appends the serialized exits from `k` on.
fn write_exits(out: &mut String, v: &Vec<(u32, u32, String, u32, u32)>, k: usize)
    requires
        k <= v@.len(),
    ensures
        final(out)@ == old(out)@ + ser_exits(exits_view(v@).skip(k as int)),
    decreases v@.len() - k,
{
    if k == v.len() {
        proof {
            assert(exits_view(v@).skip(k as int) =~= Seq::<(u32, u32, Seq<char>, u32, u32)>::empty());
            assert(out@ + ser_exits(exits_view(v@).skip(k as int)) =~= out@);
        }
    } else {
        let e = &v[k];
        write_nat(out, e.0 as u64);
        write_nat(out, e.1 as u64);
        write_str(out, e.2.as_str());
        write_nat(out, e.3 as u64);
        write_nat(out, e.4 as u64);
        write_exits(out, v, k + 1);
        proof {
            let vw = exits_view(v@);
            assert(vw.skip(k as int).drop_first() =~= vw.skip(k as int + 1));
            assert(vw.skip(k as int)[0] == vw[k as int]);
            assert(out@ =~= old(out)@ + ser_exits(vw.skip(k as int)));
        }
    }
}

/// Serializes a map descriptor record to text.
#[verifier::rlimit(100)]
pub fn to_text(f: &TilemapFile) -> (r: String)
    ensures
        r@ == ser_file(file_view(f)),
{
    let ghost fv = file_view(f);
    let ghost c1 = ser_str(f.name@);
    let ghost c2 = ser_str(f.tileset@);
    let ghost c3 = ser_nat(fv.flags.len());
    let ghost c4 = ser_flag_pairs(fv.flags);
    let ghost c5 = ser_nat(fv.tiles.len());
    let ghost c6 = ser_tile_descs(fv.tiles);
    let ghost c7 = ser_nat(fv.map.len());
    let ghost c8 = ser_rows(fv.map);
    let ghost c9 = ser_nat(fv.start.0 as nat);
    let ghost c10 = ser_nat(fv.start.1 as nat);
    let ghost c11 = ser_nat(fv.exits.len());
    let ghost c12 = ser_exits(fv.exits);
    let mut out = String::new();
    write_str(&mut out, f.name.as_str());
    let ghost a1 = out@;
    write_str(&mut out, f.tileset.as_str());
    let ghost a2 = out@;
    write_nat(&mut out, f.flags.len() as u64);
    let ghost a3 = out@;
    write_flag_pairs(&mut out, &f.flags, 0);
    let ghost a4 = out@;
    write_nat(&mut out, f.tiles.len() as u64);
    let ghost a5 = out@;
    write_tile_descs(&mut out, &f.tiles, 0);
    let ghost a6 = out@;
    write_nat(&mut out, f.map.len() as u64);
    let ghost a7 = out@;
    write_rows(&mut out, &f.map, 0);
    let ghost a8 = out@;
    write_nat(&mut out, f.data.start.0 as u64);
    let ghost a9 = out@;
    write_nat(&mut out, f.data.start.1 as u64);
    let ghost a10 = out@;
    write_nat(&mut out, f.data.exits.len() as u64);
    let ghost a11 = out@;
    write_exits(&mut out, &f.data.exits, 0);
    proof {
        assert(flags_view(f.flags@).skip(0) =~= flags_view(f.flags@));
        assert(tiles_view(f.tiles@).skip(0) =~= tiles_view(f.tiles@));
        assert(f.map.deep_view().skip(0) =~= f.map.deep_view());
        assert(exits_view(f.data.exits@).skip(0) =~= exits_view(f.data.exits@));
        assert(out@ == a11 + c12);
        let t11 = c11 + c12;
        lemma_concat_associative(a10, c11, c12);
        let t10 = c10 + t11;
        lemma_concat_associative(a9, c10, t11);
        let t9 = c9 + t10;
        lemma_concat_associative(a8, c9, t10);
        let t8 = c8 + t9;
        lemma_concat_associative(a7, c8, t9);
        let t7 = c7 + t8;
        lemma_concat_associative(a6, c7, t8);
        let t6 = c6 + t7;
        lemma_concat_associative(a5, c6, t7);
        let t5 = c5 + t6;
        lemma_concat_associative(a4, c5, t6);
        let t4 = c4 + t5;
        lemma_concat_associative(a3, c4, t5);
        let t3 = c3 + t4;
        lemma_concat_associative(a2, c3, t4);
        let t2 = c2 + t3;
        lemma_concat_associative(a1, c2, t3);
        assert(a1 =~= c1);
        assert(out@ == c1 + t2);
    }
    out
}


/// Reads `n` flag legend entries at `i`.
fn parse_flag_pairs(s: &str, len: usize, i: usize, n: u64) -> (r: Option<
    (Vec<(u32, String)>, usize),
>)
    requires
        len == s@.len(),
        i <= len,
    ensures
        match r {
            Some(p) => sp_flag_pairs(s@, i as int, n as nat) == Some((flags_view(p.0@), p.1 as int))
                && i <= p.1 <= len,
            None => sp_flag_pairs(s@, i as int, n as nat) is None,
        },
    decreases n,
{
    if n == 0 {
        let out: Vec<(u32, String)> = Vec::new();
        proof {
            assert(flags_view(out@) =~= Seq::<(u32, Seq<char>)>::empty());
        }
        return Some((out, i));
    }
    match parse_nat(s, len, i) {
        Some((k, j)) => {
            if k > 0xFFFF_FFFF {
                return None;
            }
            match parse_str(s, len, j) {
                Some((t, j2)) => {
                    match parse_flag_pairs(s, len, j2, n - 1) {
                        Some((mut rest, j3)) => {
                            let ghost rv = rest@;
                            let ghost tv = t@;
                            rest.insert(0, (k as u32, t));
                            proof {
                                assert(flags_view(rest@) =~= seq![((k as u32), tv)] + flags_view(
                                    rv,
                                ));
                            }
                            Some((rest, j3))
                        },
                        None => None,
                    }
                },
                None => None,
            }
        },
        None => None,
    }
}

/// Reads `n` tile-kind entries at `i`.
fn parse_tile_descs(s: &str, len: usize, i: usize, n: u64) -> (r: Option<
    (Vec<crate::file::TileDescriptor>, usize),
>)
    requires
        len == s@.len(),
        i <= len,
    ensures
        match r {
            Some(p) => sp_tile_descs(s@, i as int, n as nat) == Some((tiles_view(p.0@), p.1 as int))
                && i <= p.1 <= len,
            None => sp_tile_descs(s@, i as int, n as nat) is None,
        },
    decreases n,
{
    if n == 0 {
        let out: Vec<crate::file::TileDescriptor> = Vec::new();
        proof {
            assert(tiles_view(out@) =~= Seq::<(Seq<char>, u32)>::empty());
        }
        return Some((out, i));
    }
    match parse_str(s, len, i) {
        Some((t, j)) => {
            match parse_nat(s, len, j) {
                Some((k, j2)) => {
                    if k > 0xFFFF_FFFF {
                        return None;
                    }
                    match parse_tile_descs(s, len, j2, n - 1) {
                        Some((mut rest, j3)) => {
                            let ghost rv = rest@;
                            let ghost tv = t@;
                            rest.insert(
                                0,
                                crate::file::TileDescriptor { image: t, flags: k as u32 },
                            );
                            proof {
                                assert(tiles_view(rest@) =~= seq![(tv, (k as u32))] + tiles_view(
                                    rv,
                                ));
                            }
                            Some((rest, j3))
                        },
                        None => None,
                    }
                },
                None => None,
            }
        },
        None => None,
    }
}

/// Reads `n` grid cells at `i`.
fn parse_row(s: &str, len: usize, i: usize, n: u64) -> (r: Option<(Vec<u16>, usize)>)
    requires
        len == s@.len(),
        i <= len,
    ensures
        match r {
            Some(p) => sp_row(s@, i as int, n as nat) == Some((p.0@, p.1 as int)) && i <= p.1
                <= len,
            None => sp_row(s@, i as int, n as nat) is None,
        },
    decreases n,
{
    if n == 0 {
        let out: Vec<u16> = Vec::new();
        proof {
            assert(out@ =~= Seq::<u16>::empty());
        }
        return Some((out, i));
    }
    match parse_nat(s, len, i) {
        Some((k, j)) => {
            if k > 0xFFFF {
                return None;
            }
            match parse_row(s, len, j, n - 1) {
                Some((mut rest, j2)) => {
                    let ghost rv = rest@;
                    rest.insert(0, k as u16);
                    proof {
                        assert(rest@ =~= seq![(k as u16)] + rv);
                    }
                    Some((rest, j2))
                },
                None => None,
            }
        },
        None => None,
    }
}

/// Reads `n` grid rows at `i`.
fn parse_rows(s: &str, len: usize, i: usize, n: u64) -> (r: Option<(Vec<Vec<u16>>, usize)>)
    requires
        len == s@.len(),
        i <= len,
    ensures
        match r {
            Some(p) => sp_rows(s@, i as int, n as nat) == Some((p.0.deep_view(), p.1 as int)) && i
                <= p.1 <= len,
            None => sp_rows(s@, i as int, n as nat) is None,
        },
    decreases n,
{
    if n == 0 {
        let out: Vec<Vec<u16>> = Vec::new();
        proof {
            assert(out.deep_view() =~= Seq::<Seq<u16>>::empty());
        }
        return Some((out, i));
    }
    match parse_nat(s, len, i) {
        Some((c, j)) => {
            match parse_row(s, len, j, c) {
                Some((row, j2)) => {
                    match parse_rows(s, len, j2, n - 1) {
                        Some((mut rest, j3)) => {
                            let ghost rv = rest.deep_view();
                            let ghost rowv = row@;
                            rest.insert(0, row);
                            proof {
                                assert forall|q: int|
                                    0 <= q < rest.deep_view().len() implies #[trigger] rest.deep_view()[q]
                                    == (seq![rowv] + rv)[q] by {
                                    if q > 0 {
                                        assert(rest@[q] == rest@.subrange(
                                            1,
                                            rest@.len() as int,
                                        )[q - 1]);
                                    }
                                }
                                assert(rest.deep_view() =~= seq![rowv] + rv);
                            }
                            Some((rest, j3))
                        },
                        None => None,
                    }
                },
                None => None,
            }
        },
        None => None,
    }
}

/// Reads `n` exits at `i`.
fn parse_exits(s: &str, len: usize, i: usize, n: u64) -> (r: Option<
    (Vec<(u32, u32, String, u32, u32)>, usize),
>)
    requires
        len == s@.len(),
        i <= len,
    ensures
        match r {
            Some(p) => sp_exits(s@, i as int, n as nat) == Some((exits_view(p.0@), p.1 as int))
                && i <= p.1 <= len,
            None => sp_exits(s@, i as int, n as nat) is None,
        },
    decreases n,
{
    if n == 0 {
        let out: Vec<(u32, u32, String, u32, u32)> = Vec::new();
        proof {
            assert(exits_view(out@) =~= Seq::<(u32, u32, Seq<char>, u32, u32)>::empty());
        }
        return Some((out, i));
    }
    match parse_nat(s, len, i) {
        Some((a, j1)) => {
            if a > 0xFFFF_FFFF {
                return None;
            }
            match parse_nat(s, len, j1) {
                Some((b, j2)) => {
                    if b > 0xFFFF_FFFF {
                        return None;
                    }
                    match parse_str(s, len, j2) {
                        Some((t, j3)) => {
                            match parse_nat(s, len, j3) {
                                Some((c, j4)) => {
                                    if c > 0xFFFF_FFFF {
                                        return None;
                                    }
                                    match parse_nat(s, len, j4) {
                                        Some((d, j5)) => {
                                            if d > 0xFFFF_FFFF {
                                                return None;
                                            }
                                            match parse_exits(s, len, j5, n - 1) {
                                                Some((mut rest, j6)) => {
                                                    let ghost rv = rest@;
                                                    let ghost tv = t@;
                                                    rest.insert(
                                                        0,
                                                        (a as u32, b as u32, t, c as u32, d as u32),
                                                    );
                                                    proof {
                                                        assert(exits_view(rest@) =~= seq![
                                                            (
                                                                (a as u32),
                                                                (b as u32),
                                                                tv,
                                                                (c as u32),
                                                                (d as u32),
                                                            ),
                                                        ] + exits_view(rv));
                                                    }
                                                    Some((rest, j6))
                                                },
                                                None => None,
                                            }
                                        },
                                        None => None,
                                    }
                                },
                                None => None,
                            }
                        },
                        None => None,
                    }
                },
                None => None,
            }
        },
        None => None,
    }
}

/// Parses a map descriptor record from text; the whole text must be
/// one serialized record with nothing after it.
#[verifier::rlimit(100)]
pub fn from_text(s: &str) -> (r: Option<TilemapFile>)
    ensures
        match r {
            Some(f) => sp_file(s@, 0) == Some((file_view(&f), s@.len() as int)),
            None => match sp_file(s@, 0) {
                Some(p) => p.1 != s@.len(),
                None => true,
            },
        },
{
    let len = s.unicode_len();
    let name = match parse_str(s, len, 0) {
        Some(p) => p,
        None => {
            return None;
        },
    };
    let tileset = match parse_str(s, len, name.1) {
        Some(p) => p,
        None => {
            return None;
        },
    };
    let nf = match parse_nat(s, len, tileset.1) {
        Some(p) => p,
        None => {
            return None;
        },
    };
    let flags = match parse_flag_pairs(s, len, nf.1, nf.0) {
        Some(p) => p,
        None => {
            return None;
        },
    };
    let nt = match parse_nat(s, len, flags.1) {
        Some(p) => p,
        None => {
            return None;
        },
    };
    let tiles = match parse_tile_descs(s, len, nt.1, nt.0) {
        Some(p) => p,
        None => {
            return None;
        },
    };
    let nm = match parse_nat(s, len, tiles.1) {
        Some(p) => p,
        None => {
            return None;
        },
    };
    let map = match parse_rows(s, len, nm.1, nm.0) {
        Some(p) => p,
        None => {
            return None;
        },
    };
    let sx = match parse_nat(s, len, map.1) {
        Some(p) => p,
        None => {
            return None;
        },
    };
    if sx.0 > 0xFFFF_FFFF {
        return None;
    }
    let sy = match parse_nat(s, len, sx.1) {
        Some(p) => p,
        None => {
            return None;
        },
    };
    if sy.0 > 0xFFFF_FFFF {
        return None;
    }
    let ne = match parse_nat(s, len, sy.1) {
        Some(p) => p,
        None => {
            return None;
        },
    };
    let exits = match parse_exits(s, len, ne.1, ne.0) {
        Some(p) => p,
        None => {
            return None;
        },
    };
    if exits.1 != len {
        return None;
    }
    let f = TilemapFile {
        name: name.0,
        tileset: tileset.0,
        flags: flags.0,
        tiles: tiles.0,
        map: map.0,
        data: crate::file::TilemapDataDescriptor {
            start: (sx.0 as u32, sy.0 as u32),
            exits: exits.0,
        },
    };
    Some(f)
}

} // verus!
