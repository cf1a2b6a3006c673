//! The line codec: each snapshot is framed as one line of JSON bytes.
//!
//! The encoder is specified exactly (`enc_*` functions give the bytes),
//! the decoder is specified as a recursive-descent function (`dec_*`),
//! and the inverse lemmas prove that decoding an encoded value yields
//! the value back. The decoder accepts exactly the framing the encoder
//! produces: numbers in decimal, byte strings quoted with `\u00XX`
//! escapes for quotes, backslashes and control bytes, absent metrics as
//! `null`.

use vstd::arithmetic::div_mod::lemma_fundamental_div_mod;
use vstd::prelude::*;

verus! {

/// Bytes with structural meaning in the framing.
pub open spec fn is_digit(b: u8) -> bool {
    0x30 <= b <= 0x39
}

/// The decimal digit byte for `d` (0 to 9).
pub open spec fn digit_byte(d: int) -> u8 {
    (0x30 + d) as u8
}

/// The lowercase hexadecimal digit byte for `d` (0 to 15).
pub open spec fn hex_byte(d: int) -> u8 {
    if d < 10 {
        (0x30 + d) as u8
    } else {
        (0x57 + d) as u8
    }
}

/// Whether `b` is a lowercase hexadecimal digit byte.
pub open spec fn is_hex(b: u8) -> bool {
    0x30 <= b <= 0x39 || 0x61 <= b <= 0x66
}

/// The value of a lowercase hexadecimal digit byte.
pub open spec fn hex_val(b: u8) -> int {
    if b <= 0x39 {
        b - 0x30
    } else {
        b - 0x57
    }
}

/// The decimal digits of `n`, most significant first.
pub open spec fn digits_of(n: nat) -> Seq<u8>
    decreases n,
{
    if n < 10 {
        seq![digit_byte(n as int)]
    } else {
        digits_of(n / 10) + seq![digit_byte((n % 10) as int)]
    }
}

/// The numeric value of a run of decimal digit bytes.
pub open spec fn digits_val(ds: Seq<u8>) -> int
    decreases ds.len(),
{
    if ds.len() == 0 {
        0
    } else {
        digits_val(ds.drop_last()) * 10 + (ds.last() - 0x30)
    }
}

/// The encoding of an unsigned number: its decimal digits.
pub open spec fn enc_u64(n: u64) -> Seq<u8> {
    digits_of(n as nat)
}

/// The encoding of a signed number: decimal digits, with a leading
/// minus sign when negative.
pub open spec fn enc_i64(n: i64) -> Seq<u8> {
    if n >= 0 {
        digits_of(n as nat)
    } else {
        seq![0x2du8] + digits_of((-(n as int)) as nat)
    }
}

/// Whether a byte must be escaped inside a quoted string: control
/// bytes, the quote and the backslash.
pub open spec fn needs_escape(b: u8) -> bool {
    b < 0x20 || b == 0x22 || b == 0x5c
}

/// The encoding of one string byte: itself, or a six-byte `\u00XX`
/// escape.
pub open spec fn esc_byte(b: u8) -> Seq<u8> {
    if needs_escape(b) {
        seq![0x5cu8, 0x75u8, 0x30u8, 0x30u8, hex_byte(b as int / 16), hex_byte(b as int % 16)]
    } else {
        seq![b]
    }
}

/// The escaped content of a string.
pub open spec fn esc_string(s: Seq<u8>) -> Seq<u8>
    decreases s.len(),
{
    if s.len() == 0 {
        Seq::empty()
    } else {
        esc_string(s.drop_last()) + esc_byte(s.last())
    }
}

/// The encoding of a byte string: quoted, escaped content.
pub open spec fn enc_bstr(s: Seq<u8>) -> Seq<u8> {
    seq![0x22u8] + esc_string(s) + seq![0x22u8]
}

/// The literal `null`, the encoding of an absent metric.
pub open spec fn lit_null() -> Seq<u8> {
    seq![0x6eu8, 0x75u8, 0x6cu8, 0x6cu8]
}

/// The encoding of an optional value.
pub open spec fn enc_opt<T>(v: Option<T>, e: spec_fn(T) -> Seq<u8>) -> Seq<u8> {
    match v {
        Some(x) => e(x),
        None => lit_null(),
    }
}

/// The comma-separated encodings of a sequence of values.
pub open spec fn enc_items<T>(s: Seq<T>, e: spec_fn(T) -> Seq<u8>) -> Seq<u8>
    decreases s.len(),
{
    if s.len() == 0 {
        Seq::empty()
    } else if s.len() == 1 {
        e(s[0])
    } else {
        enc_items(s.drop_last(), e) + seq![0x2cu8] + e(s.last())
    }
}

/// The encoding of a sequence of values: a bracketed list.
pub open spec fn enc_list<T>(s: Seq<T>, e: spec_fn(T) -> Seq<u8>) -> Seq<u8> {
    seq![0x5bu8] + enc_items(s, e) + seq![0x5du8]
}

/// Whether the encoding of `lit` sits at `pos` in `s`.
pub open spec fn at_lit(s: Seq<u8>, pos: int, lit: Seq<u8>) -> bool {
    0 <= pos && pos + lit.len() <= s.len() && s.subrange(pos, pos + lit.len()) == lit
}

/// The position of the first non-digit byte at or after `pos`.
pub open spec fn digits_end(s: Seq<u8>, pos: int) -> int
    decreases s.len() - pos,
{
    if 0 <= pos < s.len() && is_digit(s[pos]) {
        digits_end(s, pos + 1)
    } else {
        pos
    }
}

/// Parses a run of decimal digits: its unbounded value and end position.
pub open spec fn dec_number(s: Seq<u8>, pos: int) -> Option<(int, int)> {
    let end = digits_end(s, pos);
    if end == pos {
        None
    } else {
        Some((digits_val(s.subrange(pos, end)), end))
    }
}

/// Parses an unsigned 64-bit number.
pub open spec fn dec_u64(s: Seq<u8>, pos: int) -> Option<(u64, int)> {
    match dec_number(s, pos) {
        None => None,
        Some((v, end)) => if v > u64::MAX {
            None
        } else {
            Some((v as u64, end))
        },
    }
}

/// Parses a signed 64-bit number.
pub open spec fn dec_i64(s: Seq<u8>, pos: int) -> Option<(i64, int)> {
    if 0 <= pos < s.len() && s[pos] == 0x2d {
        match dec_number(s, pos + 1) {
            None => None,
            Some((v, end)) => if -v < i64::MIN {
                None
            } else {
                Some(((-v) as i64, end))
            },
        }
    } else {
        match dec_number(s, pos) {
            None => None,
            Some((v, end)) => if v > i64::MAX {
                None
            } else {
                Some((v as i64, end))
            },
        }
    }
}

/// Parses the escaped content of a quoted string, up to and including
/// the closing quote.
pub open spec fn dec_str_content(s: Seq<u8>, pos: int) -> Option<(Seq<u8>, int)>
    decreases s.len() - pos,
{
    if pos < 0 || pos >= s.len() {
        None
    } else if s[pos] == 0x22 {
        Some((Seq::empty(), pos + 1))
    } else if s[pos] == 0x5c {
        if pos + 6 <= s.len() && s[pos + 1] == 0x75 && s[pos + 2] == 0x30 && s[pos + 3] == 0x30
            && is_hex(s[pos + 4]) && is_hex(s[pos + 5]) {
            match dec_str_content(s, pos + 6) {
                None => None,
                Some((rest, end)) => Some(
                    (seq![(hex_val(s[pos + 4]) * 16 + hex_val(s[pos + 5])) as u8] + rest, end),
                ),
            }
        } else {
            None
        }
    } else if s[pos] < 0x20 {
        None
    } else {
        match dec_str_content(s, pos + 1) {
            None => None,
            Some((rest, end)) => Some((seq![s[pos]] + rest, end)),
        }
    }
}

/// Parses a quoted byte string.
pub open spec fn dec_bstr(s: Seq<u8>, pos: int) -> Option<(Seq<u8>, int)> {
    if 0 <= pos < s.len() && s[pos] == 0x22 {
        dec_str_content(s, pos + 1)
    } else {
        None
    }
}

/// Parses an optional value: `null`, or whatever `p` parses.
pub open spec fn dec_opt<T>(
    s: Seq<u8>,
    pos: int,
    p: spec_fn(Seq<u8>, int) -> Option<(T, int)>,
) -> Option<(Option<T>, int)> {
    if at_lit(s, pos, lit_null()) {
        Some((None, pos + 4))
    } else {
        match p(s, pos) {
            None => None,
            Some((v, end)) => Some((Some(v), end)),
        }
    }
}

/// Parses the elements of a non-empty list, up to and including the
/// closing bracket.
pub open spec fn dec_items<T>(
    s: Seq<u8>,
    pos: int,
    p: spec_fn(Seq<u8>, int) -> Option<(T, int)>,
) -> Option<(Seq<T>, int)>
    decreases s.len() - pos,
{
    match p(s, pos) {
        None => None,
        Some((v, end)) => if end <= pos || end > s.len() {
            None
        } else if end < s.len() && s[end] == 0x2c {
            match dec_items(s, end + 1, p) {
                None => None,
                Some((rest, rend)) => Some((seq![v] + rest, rend)),
            }
        } else if end < s.len() && s[end] == 0x5d {
            Some((seq![v], end + 1))
        } else {
            None
        },
    }
}

/// Parses a bracketed list.
pub open spec fn dec_list<T>(
    s: Seq<u8>,
    pos: int,
    p: spec_fn(Seq<u8>, int) -> Option<(T, int)>,
) -> Option<(Seq<T>, int)> {
    if 0 <= pos < s.len() && s[pos] == 0x5b {
        if pos + 1 < s.len() && s[pos + 1] == 0x5d {
            Some((Seq::empty(), pos + 2))
        } else {
            dec_items(s, pos + 1, p)
        }
    } else {
        None
    }
}

/// A delimiter byte, or the end of the input: what may legitimately
/// follow a value.
pub open spec fn delim_after(s: Seq<u8>, pos: int) -> bool {
    pos == s.len() || (0 <= pos < s.len() && (s[pos] == 0x2c || s[pos] == 0x5d || s[pos] == 0x7d
        || s[pos] == 0x0a))
}

/// `p` parses the encoding `e(v)` back to `v` wherever that encoding
/// sits in `s` followed by a delimiter or the end of the input.
pub open spec fn parses_back<T>(
    s: Seq<u8>,
    p: spec_fn(Seq<u8>, int) -> Option<(T, int)>,
    e: spec_fn(T) -> Seq<u8>,
    v: T,
) -> bool {
    forall|q: int|
        0 <= q && q + e(v).len() <= s.len() && s.subrange(q, q + e(v).len()) == e(v)
            && delim_after(s, q + e(v).len()) ==> #[trigger] p(s, q) == Some(
            (v, q + e(v).len()),
        )
}

/// Named parser and encoder values, so that generic lemmas and their
/// uses speak of one and the same function.
pub open spec fn p_u64() -> spec_fn(Seq<u8>, int) -> Option<(u64, int)> {
    |s: Seq<u8>, pos: int| dec_u64(s, pos)
}

/// The unsigned-number encoder as a function value.
pub open spec fn e_u64() -> spec_fn(u64) -> Seq<u8> {
    |v: u64| enc_u64(v)
}

/// The byte-string parser as a function value.
pub open spec fn p_bstr() -> spec_fn(Seq<u8>, int) -> Option<(Seq<u8>, int)> {
    |s: Seq<u8>, pos: int| dec_bstr(s, pos)
}

/// The byte-string encoder as a function value.
pub open spec fn e_bstr() -> spec_fn(Seq<u8>) -> Seq<u8> {
    |v: Seq<u8>| enc_bstr(v)
}

/// One byte of a located literal.
pub proof fn lemma_at_index(s: Seq<u8>, pos: int, lit: Seq<u8>, k: int)
    requires
        at_lit(s, pos, lit),
        0 <= k < lit.len(),
    ensures
        s[pos + k] == lit[k],
{
    assert(s.subrange(pos, pos + lit.len())[k] == lit[k]);
}

/// Splitting a located concatenation into its located halves.
pub proof fn lemma_at_concat(s: Seq<u8>, pos: int, a: Seq<u8>, b: Seq<u8>)
    requires
        at_lit(s, pos, a + b),
    ensures
        at_lit(s, pos, a),
        at_lit(s, pos + a.len(), b),
{
    assert forall|i: int| 0 <= i < a.len() implies s[pos + i] == a[i] by {
        lemma_at_index(s, pos, a + b, i);
    }
    assert forall|i: int| 0 <= i < b.len() implies s[pos + a.len() + i] == b[i] by {
        lemma_at_index(s, pos, a + b, a.len() + i);
    }
    assert(s.subrange(pos, pos + a.len()) =~= a);
    assert(s.subrange(pos + a.len(), pos + a.len() + b.len()) =~= b);
}

/// The decimal digits of a number are digit bytes, and there is at
/// least one of them.
pub proof fn lemma_digits_of_digits(n: nat)
    ensures
        digits_of(n).len() >= 1,
        forall|i: int| 0 <= i < digits_of(n).len() ==> is_digit(#[trigger] digits_of(n)[i]),
    decreases n,
{
    if n >= 10 {
        lemma_digits_of_digits(n / 10);
    }
}

/// Reading back the decimal digits of a number gives the number.
pub proof fn lemma_digits_val_of(n: nat)
    ensures
        digits_val(digits_of(n)) == n,
    decreases n,
{
    if n < 10 {
        let ds = digits_of(n);
        assert(ds.len() == 1);
        assert(ds.drop_last() =~= Seq::<u8>::empty());
        assert(digits_val(ds.drop_last()) == 0);
        assert(ds.last() == digit_byte(n as int));
        assert(digits_val(ds) == 0 * 10 + (digit_byte(n as int) - 0x30));
    } else {
        lemma_digits_val_of(n / 10);
        let ds = digits_of(n);
        let tail = seq![digit_byte((n % 10) as int)];
        assert(ds == digits_of(n / 10) + tail);
        assert(ds.drop_last() =~= digits_of(n / 10));
        assert(ds.last() == (digits_of(n / 10) + tail)[ds.len() - 1]);
        assert(ds.last() == digit_byte((n % 10) as int));
        assert(n % 10 < 10);
        assert(digit_byte((n % 10) as int) == 0x30 + n % 10);
        assert(digits_val(ds) == digits_val(ds.drop_last()) * 10 + (ds.last() - 0x30));
        assert(digits_val(ds) == (n / 10) * 10 + (n % 10));
        assert((n / 10) * 10 + (n % 10) == n) by (nonlinear_arith);
    }
}

/// A run of digit bytes ending at a non-digit (or at the end of input)
/// is scanned to exactly its end.
pub proof fn lemma_digits_end_run(s: Seq<u8>, pos: int, e: int)
    requires
        0 <= pos <= e <= s.len(),
        forall|k: int| pos <= k < e ==> is_digit(#[trigger] s[k]),
        e == s.len() || !is_digit(s[e]),
    ensures
        digits_end(s, pos) == e,
    decreases e - pos,
{
    if pos < e {
        lemma_digits_end_run(s, pos + 1, e);
    }
}

/// Parsing at the decimal digits of `n`, followed by a non-digit, gives
/// back `n`.
pub proof fn lemma_dec_number_at(s: Seq<u8>, pos: int, n: nat)
    requires
        at_lit(s, pos, digits_of(n)),
        pos + digits_of(n).len() == s.len() || !is_digit(s[pos + digits_of(n).len()]),
    ensures
        dec_number(s, pos) == Some((n as int, pos + digits_of(n).len())),
{
    let l = digits_of(n).len() as int;
    lemma_digits_of_digits(n);
    assert forall|k: int| pos <= k < pos + l implies is_digit(#[trigger] s[k]) by {
        assert(s[k] == s.subrange(pos, pos + l)[k - pos]);
    }
    lemma_digits_end_run(s, pos, pos + l);
    lemma_digits_val_of(n);
}

/// Parsing at the encoding of an unsigned number, followed by a
/// delimiter, gives back the number.
pub proof fn lemma_dec_u64_at(s: Seq<u8>, pos: int, v: u64)
    requires
        at_lit(s, pos, enc_u64(v)),
        delim_after(s, pos + enc_u64(v).len()),
    ensures
        dec_u64(s, pos) == Some((v, pos + enc_u64(v).len())),
{
    lemma_dec_number_at(s, pos, v as nat);
}

/// Every unsigned number parses back from its encoding.
pub proof fn lemma_parses_back_u64(s: Seq<u8>, v: u64)
    ensures
        parses_back(s, p_u64(), e_u64(), v),
{
    assert forall|q: int|
        0 <= q && q + e_u64()(v).len() <= s.len() && s.subrange(q, q + e_u64()(v).len())
            == e_u64()(v) && delim_after(s, q + e_u64()(v).len()) implies #[trigger] p_u64()(
        s,
        q,
    ) == Some((v, q + e_u64()(v).len())) by {
        lemma_dec_u64_at(s, q, v);
    }
}

/// Parsing at the encoding of a signed number, followed by a delimiter,
/// gives back the number.
pub proof fn lemma_dec_i64_at(s: Seq<u8>, pos: int, v: i64)
    requires
        at_lit(s, pos, enc_i64(v)),
        delim_after(s, pos + enc_i64(v).len()),
    ensures
        dec_i64(s, pos) == Some((v, pos + enc_i64(v).len())),
{
    if v >= 0 {
        lemma_dec_number_at(s, pos, v as nat);
        lemma_digits_of_digits(v as nat);
        lemma_at_index(s, pos, enc_i64(v), 0);
        assert(is_digit(s[pos]));
    } else {
        let m = (-(v as int)) as nat;
        lemma_at_concat(s, pos, seq![0x2du8], digits_of(m));
        lemma_at_index(s, pos, seq![0x2du8], 0);
        assert(s[pos] == 0x2d);
        lemma_dec_number_at(s, pos + 1, m);
    }
}

/// The escaped content of a string unfolds from the front.
pub proof fn lemma_esc_string_front(bs: Seq<u8>)
    requires
        bs.len() >= 1,
    ensures
        esc_string(bs) == esc_byte(bs[0]) + esc_string(bs.drop_first()),
    decreases bs.len(),
{
    if bs.len() == 1 {
        assert(bs.drop_last() =~= Seq::<u8>::empty());
        assert(bs.drop_first() =~= Seq::<u8>::empty());
        assert(esc_string(bs) =~= esc_byte(bs[0]) + esc_string(bs.drop_first()));
    } else {
        lemma_esc_string_front(bs.drop_last());
        assert(bs.drop_last()[0] == bs[0]);
        assert(bs.drop_last().drop_first() =~= bs.drop_first().drop_last());
        assert(bs.drop_first().last() == bs.last());
        assert(esc_string(bs) == esc_string(bs.drop_last()) + esc_byte(bs.last()));
        assert(esc_string(bs.drop_first()) == esc_string(bs.drop_first().drop_last()) + esc_byte(
            bs.last(),
        ));
        assert(esc_string(bs) =~= esc_byte(bs[0]) + esc_string(bs.drop_first()));
    }
}

/// Parsing at the escaped content of a string, followed by the closing
/// quote, gives back the content.
pub proof fn lemma_dec_str_content_at(s: Seq<u8>, pos: int, bs: Seq<u8>)
    requires
        at_lit(s, pos, esc_string(bs) + seq![0x22u8]),
    ensures
        dec_str_content(s, pos) == Some((bs, pos + esc_string(bs).len() + 1)),
    decreases bs.len(),
{
    if bs.len() == 0 {
        lemma_at_index(s, pos, esc_string(bs) + seq![0x22u8], 0);
        assert(s[pos] == 0x22);
        assert(dec_str_content(s, pos) == Some((Seq::<u8>::empty(), pos + 1)));
        assert(bs =~= Seq::<u8>::empty());
    } else {
        lemma_esc_string_front(bs);
        let b = bs[0];
        let rest = bs.drop_first();
        assert((esc_byte(b) + esc_string(rest)) + seq![0x22u8] =~= esc_byte(b) + (esc_string(rest)
            + seq![0x22u8]));
        lemma_at_concat(s, pos, esc_byte(b), esc_string(rest) + seq![0x22u8]);
        lemma_dec_str_content_at(s, pos + esc_byte(b).len(), rest);
        if needs_escape(b) {
            lemma_at_index(s, pos, esc_byte(b), 0);
            lemma_at_index(s, pos, esc_byte(b), 1);
            lemma_at_index(s, pos, esc_byte(b), 2);
            lemma_at_index(s, pos, esc_byte(b), 3);
            lemma_at_index(s, pos, esc_byte(b), 4);
            lemma_at_index(s, pos, esc_byte(b), 5);
            assert(is_hex(hex_byte(b as int / 16)));
            assert(is_hex(hex_byte(b as int % 16)));
            assert(hex_val(hex_byte(b as int / 16)) == b as int / 16);
            assert(hex_val(hex_byte(b as int % 16)) == b as int % 16);
            lemma_fundamental_div_mod(b as int, 16);
            assert((hex_val(s[pos + 4]) * 16 + hex_val(s[pos + 5])) as u8 == b);
            assert(seq![b] + rest =~= bs);
        } else {
            lemma_at_index(s, pos, esc_byte(b), 0);
            assert(s[pos] == b);
            assert(b != 0x22 && b != 0x5c && b >= 0x20);
            assert(seq![b] + rest =~= bs);
        }
    }
}

/// Parsing at the encoding of a byte string gives back the string.
pub proof fn lemma_dec_bstr_at(s: Seq<u8>, pos: int, bs: Seq<u8>)
    requires
        at_lit(s, pos, enc_bstr(bs)),
    ensures
        dec_bstr(s, pos) == Some((bs, pos + enc_bstr(bs).len())),
{
    assert(enc_bstr(bs) =~= seq![0x22u8] + (esc_string(bs) + seq![0x22u8]));
    lemma_at_concat(s, pos, seq![0x22u8], esc_string(bs) + seq![0x22u8]);
    lemma_at_index(s, pos, seq![0x22u8], 0);
    assert(s[pos] == 0x22);
    lemma_dec_str_content_at(s, pos + 1, bs);
}

/// Every byte string parses back from its encoding.
pub proof fn lemma_parses_back_bstr(s: Seq<u8>, v: Seq<u8>)
    ensures
        parses_back(s, p_bstr(), e_bstr(), v),
{
    assert forall|q: int|
        0 <= q && q + e_bstr()(v).len() <= s.len() && s.subrange(q, q + e_bstr()(v).len())
            == e_bstr()(v) && delim_after(s, q + e_bstr()(v).len()) implies #[trigger] p_bstr()(
        s,
        q,
    ) == Some((v, q + e_bstr()(v).len())) by {
        lemma_dec_bstr_at(s, q, v);
    }
}

/// The items of a list of two or more values unfold from the front.
pub proof fn lemma_enc_items_front<T>(vs: Seq<T>, e: spec_fn(T) -> Seq<u8>)
    requires
        vs.len() >= 2,
    ensures
        enc_items(vs, e) == e(vs[0]) + seq![0x2cu8] + enc_items(vs.drop_first(), e),
    decreases vs.len(),
{
    if vs.len() == 2 {
        assert(vs.drop_last().len() == 1);
        assert(vs.drop_last()[0] == vs[0]);
        assert(vs.drop_first().len() == 1);
        assert(vs.drop_first()[0] == vs[1]);
        assert(enc_items(vs.drop_last(), e) == e(vs[0]));
        assert(enc_items(vs.drop_first(), e) == e(vs[1]));
        assert(vs.last() == vs[1]);
        assert(enc_items(vs, e) =~= e(vs[0]) + seq![0x2cu8] + enc_items(vs.drop_first(), e));
    } else {
        lemma_enc_items_front(vs.drop_last(), e);
        assert(vs.drop_last()[0] == vs[0]);
        assert(vs.drop_last().drop_first() =~= vs.drop_first().drop_last());
        assert(vs.drop_first().last() == vs.last());
        assert(enc_items(vs.drop_first(), e) == enc_items(vs.drop_first().drop_last(), e)
            + seq![0x2cu8] + e(vs.last()));
        assert(enc_items(vs, e) =~= e(vs[0]) + seq![0x2cu8] + enc_items(vs.drop_first(), e));
    }
}

/// Parsing at the items of a non-empty list, followed by the closing
/// bracket, gives back the items.
pub proof fn lemma_dec_items_at<T>(
    s: Seq<u8>,
    pos: int,
    vs: Seq<T>,
    p: spec_fn(Seq<u8>, int) -> Option<(T, int)>,
    e: spec_fn(T) -> Seq<u8>,
)
    requires
        vs.len() >= 1,
        at_lit(s, pos, enc_items(vs, e) + seq![0x5du8]),
        forall|i: int| 0 <= i < vs.len() ==> parses_back(s, p, e, #[trigger] vs[i]),
        forall|i: int| 0 <= i < vs.len() ==> e(#[trigger] vs[i]).len() >= 1,
    ensures
        dec_items(s, pos, p) == Some((vs, pos + enc_items(vs, e).len() + 1)),
    decreases vs.len(),
{
    if vs.len() == 1 {
        assert(enc_items(vs, e) == e(vs[0]));
        lemma_at_concat(s, pos, e(vs[0]), seq![0x5du8]);
        let end = pos + e(vs[0]).len();
        lemma_at_index(s, end, seq![0x5du8], 0);
        assert(s[end] == 0x5d);
        assert(delim_after(s, end));
        assert(parses_back(s, p, e, vs[0]));
        assert(p(s, pos) == Some((vs[0], end)));
        assert(seq![vs[0]] =~= vs);
    } else {
        lemma_enc_items_front(vs, e);
        assert((e(vs[0]) + seq![0x2cu8] + enc_items(vs.drop_first(), e)) + seq![0x5du8] =~= e(
            vs[0],
        ) + (seq![0x2cu8] + (enc_items(vs.drop_first(), e) + seq![0x5du8])));
        lemma_at_concat(s, pos, e(vs[0]), seq![0x2cu8] + (enc_items(vs.drop_first(), e)
            + seq![0x5du8]));
        let end = pos + e(vs[0]).len();
        lemma_at_concat(s, end, seq![0x2cu8], enc_items(vs.drop_first(), e) + seq![0x5du8]);
        lemma_at_index(s, end, seq![0x2cu8], 0);
        assert(s[end] == 0x2c);
        assert(delim_after(s, end));
        assert(parses_back(s, p, e, vs[0]));
        assert(p(s, pos) == Some((vs[0], end)));
        assert forall|i: int| 0 <= i < vs.drop_first().len() implies parses_back(
            s,
            p,
            e,
            #[trigger] vs.drop_first()[i],
        ) by {
            assert(vs.drop_first()[i] == vs[i + 1]);
        }
        lemma_dec_items_at(s, end + 1, vs.drop_first(), p, e);
        assert(seq![vs[0]] + vs.drop_first() =~= vs);
        assert(enc_items(vs, e).len() == e(vs[0]).len() + 1 + enc_items(vs.drop_first(), e).len());
    }
}

/// Parsing at the encoding of a list gives back the list, provided the
/// first element's encoding does not itself start with the closing
/// bracket.
pub proof fn lemma_dec_list_at<T>(
    s: Seq<u8>,
    pos: int,
    vs: Seq<T>,
    p: spec_fn(Seq<u8>, int) -> Option<(T, int)>,
    e: spec_fn(T) -> Seq<u8>,
)
    requires
        at_lit(s, pos, enc_list(vs, e)),
        forall|i: int| 0 <= i < vs.len() ==> parses_back(s, p, e, #[trigger] vs[i]),
        forall|i: int| 0 <= i < vs.len() ==> e(#[trigger] vs[i]).len() >= 1,
        vs.len() >= 1 ==> e(vs[0])[0] != 0x5d,
    ensures
        dec_list(s, pos, p) == Some((vs, pos + enc_list(vs, e).len())),
{
    assert(enc_list(vs, e) =~= seq![0x5bu8] + (enc_items(vs, e) + seq![0x5du8]));
    lemma_at_concat(s, pos, seq![0x5bu8], enc_items(vs, e) + seq![0x5du8]);
    lemma_at_index(s, pos, seq![0x5bu8], 0);
    assert(s[pos] == 0x5b);
    if vs.len() == 0 {
        assert(enc_items(vs, e) =~= Seq::<u8>::empty());
        lemma_at_index(s, pos + 1, enc_items(vs, e) + seq![0x5du8], 0);
        assert(s[pos + 1] == 0x5d);
        assert(vs =~= Seq::<T>::empty());
    } else {
        lemma_at_index(s, pos + 1, enc_items(vs, e) + seq![0x5du8], 0);
        assert(s[pos + 1] == (enc_items(vs, e) + seq![0x5du8])[0]);
        assert(enc_items(vs, e)[0] == e(vs[0])[0]) by {
            if vs.len() == 1 {
            } else {
                lemma_enc_items_front(vs, e);
            }
        }
        assert(s[pos + 1] != 0x5d);
        lemma_dec_items_at(s, pos + 1, vs, p, e);
    }
}

/// Parsing at the encoding of an optional value gives back the value,
/// provided a present value's encoding does not start like `null`.
pub proof fn lemma_dec_opt_at<T>(
    s: Seq<u8>,
    pos: int,
    ov: Option<T>,
    p: spec_fn(Seq<u8>, int) -> Option<(T, int)>,
    e: spec_fn(T) -> Seq<u8>,
)
    requires
        at_lit(s, pos, enc_opt(ov, e)),
        delim_after(s, pos + enc_opt(ov, e).len()),
        match ov {
            Some(v) => parses_back(s, p, e, v) && e(v).len() >= 1 && e(v)[0] != 0x6e,
            None => true,
        },
    ensures
        dec_opt(s, pos, p) == Some((ov, pos + enc_opt(ov, e).len())),
{
    match ov {
        None => {
            assert(at_lit(s, pos, lit_null()));
        },
        Some(v) => {
            lemma_at_index(s, pos, e(v), 0);
            assert(s[pos] == e(v)[0]);
            if at_lit(s, pos, lit_null()) {
                lemma_at_index(s, pos, lit_null(), 0);
                assert(false);
            }
            assert(p(s, pos) == Some((v, pos + e(v).len())));
        },
    }
}

/// Appends the decimal digits of `n` to `out`.
pub fn emit_u64(n: u64, out: &mut Vec<u8>)
    ensures
        final(out)@ == old(out)@ + enc_u64(n),
    decreases n,
{
    if n < 10 {
        out.push(0x30 + (n as u8));
        proof {
            assert(out@ =~= old(out)@ + enc_u64(n));
        }
    } else {
        emit_u64(n / 10, out);
        out.push(0x30 + ((n % 10) as u8));
        proof {
            assert(out@ =~= old(out)@ + enc_u64(n));
        }
    }
}

/// Appends the decimal digits of a wide number to `out`.
pub fn emit_u128(n: u128, out: &mut Vec<u8>)
    ensures
        final(out)@ == old(out)@ + digits_of(n as nat),
    decreases n,
{
    if n < 10 {
        out.push(0x30 + (n as u8));
        proof {
            assert(out@ =~= old(out)@ + digits_of(n as nat));
        }
    } else {
        emit_u128(n / 10, out);
        out.push(0x30 + ((n % 10) as u8));
        proof {
            assert(out@ =~= old(out)@ + digits_of(n as nat));
        }
    }
}

/// Appends the decimal encoding of a signed number to `out`.
pub fn emit_i64(n: i64, out: &mut Vec<u8>)
    ensures
        final(out)@ == old(out)@ + enc_i64(n),
{
    if n >= 0 {
        emit_u64(n as u64, out);
    } else {
        out.push(0x2d);
        let m = (-(n as i128)) as u64;
        emit_u64(m, out);
        proof {
            assert(out@ =~= old(out)@ + enc_i64(n));
        }
    }
}

/// Appends the quoted, escaped encoding of a byte string to `out`.
pub fn emit_bstr(v: &Vec<u8>, out: &mut Vec<u8>)
    ensures
        final(out)@ == old(out)@ + enc_bstr(v@),
{
    out.push(0x22);
    let ghost base = out@;
    let n = v.len();
    for i in 0..n
        invariant
            n == v@.len(),
            base == old(out)@ + seq![0x22u8],
            out@ == base + esc_string(v@.take(i as int)),
    {
        let b = v[i];
        proof {
            assert(v@.take(i + 1).drop_last() =~= v@.take(i as int));
            assert(v@.take(i + 1).last() == b);
        }
        if b < 0x20 || b == 0x22 || b == 0x5c {
            out.push(0x5c);
            out.push(0x75);
            out.push(0x30);
            out.push(0x30);
            let hi = b / 16;
            let lo = b % 16;
            out.push(
                if hi < 10 {
                    0x30 + hi
                } else {
                    0x57 + hi
                },
            );
            out.push(
                if lo < 10 {
                    0x30 + lo
                } else {
                    0x57 + lo
                },
            );
            proof {
                assert(out@ =~= base + esc_string(v@.take(i + 1)));
            }
        } else {
            out.push(b);
            proof {
                assert(out@ =~= base + esc_string(v@.take(i + 1)));
            }
        }
    }
    out.push(0x22);
    proof {
        assert(v@.take(n as int) =~= v@);
        assert(out@ =~= old(out)@ + enc_bstr(v@));
    }
}

/// Scans a run of decimal digits: the digits' value (or an overflow
/// report) and the end of the run.
fn parse_number(s: &[u8], pos: usize) -> (r: Option<(u64, usize)>)
    requires
        pos <= s@.len(),
    ensures
        match r {
            Some((v, end)) => dec_number(s@, pos as int) == Some((v as int, end as int)) && pos
                < end <= s@.len(),
            None => ({
                let d = dec_number(s@, pos as int);
                d is None || d.unwrap().0 > u64::MAX
            }),
        },
{
    let n = s.len();
    let mut i = pos;
    let mut val: u128 = 0;
    let mut big = false;
    while i < n && s[i] >= 0x30 && s[i] <= 0x39
        invariant
            pos <= i <= n,
            n == s@.len(),
            digits_end(s@, pos as int) == digits_end(s@, i as int),
            !big ==> val == digits_val(s@.subrange(pos as int, i as int)) && val <= u64::MAX,
            big ==> digits_val(s@.subrange(pos as int, i as int)) > u64::MAX,
        decreases n - i,
    {
        let d = s[i] - 0x30;
        proof {
            assert(s@.subrange(pos as int, i as int + 1).drop_last() =~= s@.subrange(
                pos as int,
                i as int,
            ));
            assert(s@.subrange(pos as int, i as int + 1).last() == s@[i as int]);
            assert(digits_end(s@, i as int) == digits_end(s@, i as int + 1));
        }
        if big {
            proof {
                let prev = digits_val(s@.subrange(pos as int, i as int));
                assert(prev * 10 + d >= prev) by (nonlinear_arith)
                    requires
                        prev >= 0,
                        d >= 0,
                ;
                assert(prev > u64::MAX ==> prev * 10 + d > u64::MAX) by (nonlinear_arith)
                    requires
                        prev >= 0,
                ;
            }
        } else {
            let next = val * 10 + (d as u128);
            if next > u64::MAX as u128 {
                big = true;
            }
            val = next;
        }
        i = i + 1;
    }
    proof {
        assert(digits_end(s@, i as int) == i as int);
    }
    if i == pos {
        None
    } else if big {
        None
    } else {
        Some((val as u64, i))
    }
}

/// Parses an unsigned 64-bit number.
pub fn parse_u64(s: &[u8], pos: usize) -> (r: Option<(u64, usize)>)
    requires
        pos <= s@.len(),
    ensures
        match r {
            Some((v, end)) => dec_u64(s@, pos as int) == Some((v, end as int)) && pos < end
                <= s@.len(),
            None => dec_u64(s@, pos as int) is None,
        },
{
    parse_number(s, pos)
}

/// Parses a signed 64-bit number.
pub fn parse_i64(s: &[u8], pos: usize) -> (r: Option<(i64, usize)>)
    requires
        pos <= s@.len(),
    ensures
        match r {
            Some((v, end)) => dec_i64(s@, pos as int) == Some((v, end as int)) && pos < end
                <= s@.len(),
            None => dec_i64(s@, pos as int) is None,
        },
{
    if pos < s.len() && s[pos] == 0x2d {
        match parse_number(s, pos + 1) {
            None => None,
            Some((v, end)) => {
                if v > 0x8000_0000_0000_0000u64 {
                    None
                } else if v == 0x8000_0000_0000_0000u64 {
                    Some((i64::MIN, end))
                } else {
                    Some((-(v as i64), end))
                }
            },
        }
    } else {
        match parse_number(s, pos) {
            None => None,
            Some((v, end)) => {
                if v > i64::MAX as u64 {
                    None
                } else {
                    Some((v as i64, end))
                }
            },
        }
    }
}

/// Parses a quoted byte string.
pub fn parse_bstr(s: &[u8], pos: usize) -> (r: Option<(Vec<u8>, usize)>)
    requires
        pos <= s@.len(),
    ensures
        match r {
            Some(p) => dec_bstr(s@, pos as int) == Some((p.0@, p.1 as int)) && pos < p.1
                <= s@.len(),
            None => dec_bstr(s@, pos as int) is None,
        },
{
    if !(pos < s.len() && s[pos] == 0x22) {
        return None;
    }
    let mut res: Vec<u8> = Vec::new();
    let mut i = pos + 1;
    loop
        invariant
            pos + 1 <= i <= s@.len(),
            pos < s@.len(),
            s@[pos as int] == 0x22,
            dec_str_content(s@, pos as int + 1) == (match dec_str_content(s@, i as int) {
                Some((rest, e)) => Some((res@ + rest, e)),
                None => None::<(Seq<u8>, int)>,
            }),
        decreases s@.len() - i,
    {
        if i >= s.len() {
            return None;
        }
        let b = s[i];
        if b == 0x22 {
            proof {
                assert(dec_str_content(s@, i as int) == Some((Seq::<u8>::empty(), i + 1)));
                assert(res@ + Seq::<u8>::empty() =~= res@);
            }
            return Some((res, i + 1));
        } else if b == 0x5c {
            if s.len() - i >= 6 && s[i + 1] == 0x75 && s[i + 2] == 0x30 && s[i + 3] == 0x30 && ((
            0x30 <= s[i + 4] && s[i + 4] <= 0x39) || (0x61 <= s[i + 4] && s[i + 4] <= 0x66)) && ((
            0x30 <= s[i + 5] && s[i + 5] <= 0x39) || (0x61 <= s[i + 5] && s[i + 5] <= 0x66)) {
                let h1 = if s[i + 4] <= 0x39 {
                    s[i + 4] - 0x30
                } else {
                    s[i + 4] - 0x57
                };
                let h2 = if s[i + 5] <= 0x39 {
                    s[i + 5] - 0x30
                } else {
                    s[i + 5] - 0x57
                };
                let ghost pre = res@;
                res.push(h1 * 16 + h2);
                proof {
                    let inner = dec_str_content(s@, i as int + 6);
                    if inner is Some {
                        assert(pre + (seq![(hex_val(s@[i as int + 4]) * 16 + hex_val(
                            s@[i as int + 5],
                        )) as u8] + inner.unwrap().0) =~= res@ + inner.unwrap().0);
                    }
                }
                i = i + 6;
            } else {
                return None;
            }
        } else if b < 0x20 {
            return None;
        } else {
            let ghost pre = res@;
            res.push(b);
            proof {
                let inner = dec_str_content(s@, i as int + 1);
                if inner is Some {
                    assert(pre + (seq![b] + inner.unwrap().0) =~= res@ + inner.unwrap().0);
                }
            }
            i = i + 1;
        }
    }
}

/// Appends a literal to `out`.
pub fn emit_lit(out: &mut Vec<u8>, lit: &[u8])
    ensures
        final(out)@ == old(out)@ + lit@,
{
    let l = lit.len();
    for i in 0..l
        invariant
            l == lit@.len(),
            out@ == old(out)@ + lit@.take(i as int),
    {
        out.push(lit[i]);
        proof {
            assert(out@ =~= old(out)@ + lit@.take(i + 1));
        }
    }
    proof {
        assert(lit@.take(l as int) =~= lit@);
    }
}

/// Consumes a literal at `pos`, or reports that it is not there.
pub fn eat_lit(s: &[u8], pos: usize, lit: &[u8]) -> (r: Option<usize>)
    requires
        pos <= s@.len(),
    ensures
        match r {
            Some(e) => at_lit(s@, pos as int, lit@) && e == pos + lit@.len(),
            None => !at_lit(s@, pos as int, lit@),
        },
{
    let l = lit.len();
    let n = s.len();
    if n - pos < l || pos > n {
        return None;
    }
    let mut i: usize = 0;
    while i < l
        invariant
            0 <= i <= l,
            l == lit@.len(),
            n == s@.len(),
            pos + l <= n,
            forall|k: int| 0 <= k < i ==> s@[pos + k] == lit@[k],
        decreases l - i,
    {
        if s[pos + i] != lit[i] {
            proof {
                if at_lit(s@, pos as int, lit@) {
                    assert(s@.subrange(pos as int, pos + lit@.len())[i as int] == lit@[i as int]);
                    assert(false);
                }
            }
            return None;
        }
        i = i + 1;
    }
    proof {
        assert(s@.subrange(pos as int, pos + lit@.len()) =~= lit@);
    }
    Some(pos + l)
}

/// Whether the literal `null` sits at `pos`.
pub fn at_null(s: &[u8], pos: usize) -> (r: bool)
    requires
        pos <= s@.len(),
    ensures
        r == at_lit(s@, pos as int, lit_null()),
{
    if s.len() >= 4 && pos <= s.len() - 4 && s[pos] == 0x6e && s[pos + 1] == 0x75 && s[pos + 2] == 0x6c && s[pos
        + 3] == 0x6c {
        proof {
            assert(s@.subrange(pos as int, pos as int + 4) =~= lit_null());
        }
        true
    } else {
        proof {
            if at_lit(s@, pos as int, lit_null()) {
                lemma_at_index(s@, pos as int, lit_null(), 0);
                lemma_at_index(s@, pos as int, lit_null(), 1);
                lemma_at_index(s@, pos as int, lit_null(), 2);
                lemma_at_index(s@, pos as int, lit_null(), 3);
                assert(false);
            }
        }
        false
    }
}

} // verus!
