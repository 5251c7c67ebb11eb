//! Reading and writing the plain text the world is saved in: lines, words
//! and decimal numbers, as bytes. Text is read as UTF-8.
use vstd::prelude::*;
use vstd::utf8::valid_utf8;

verus! {

/// The views of a list of byte vectors.
pub open spec fn views(s: Seq<Vec<u8>>) -> Seq<Seq<u8>> {
    s.map_values(|v: Vec<u8>| v@)
}

/// The pieces of `text` between newline bytes, in order: one more piece
/// than there are newlines.
pub open spec fn newline_pieces(text: Seq<u8>) -> Seq<Seq<u8>>
    decreases text.len(),
{
    if text.len() == 0 {
        seq![Seq::<u8>::empty()]
    } else {
        let p = newline_pieces(text.drop_last());
        if text.last() == 10 {
            p.push(Seq::<u8>::empty())
        } else {
            p.update(p.len() - 1, p.last().push(text.last()))
        }
    }
}

/// The lines of `text` as a line reader hands them out: the pieces
/// between newlines, less the empty piece after a final newline.
pub open spec fn text_lines(text: Seq<u8>) -> Seq<Seq<u8>> {
    let p = newline_pieces(text);
    if p.last().len() == 0 {
        p.drop_last()
    } else {
        p
    }
}

/// The ASCII bytes that count as white space between words.
pub open spec fn is_space(b: u8) -> bool {
    b == 9 || b == 10 || b == 11 || b == 12 || b == 13 || b == 32
}

/// The length of the UTF-8 encoding of the white space character outside
/// ASCII that `t` starts with, or 0 when it starts with none. These are
/// U+0085, U+00A0, U+1680, U+2000 to U+200A, U+2028, U+2029, U+202F,
/// U+205F and U+3000: with the ASCII ones of `is_space`, the characters
/// that `char::is_whitespace` accepts.
pub open spec fn wide_space_len(t: Seq<u8>) -> int {
    if t.len() >= 2 && t[0] == 0xc2 && (t[1] == 0x85 || t[1] == 0xa0) {
        2
    } else if t.len() >= 3 && ((t[0] == 0xe1 && t[1] == 0x9a && t[2] == 0x80) || (t[0] == 0xe2
        && t[1] == 0x80 && ((0x80 <= t[2] && t[2] <= 0x8a) || t[2] == 0xa8 || t[2] == 0xa9 || t[2]
        == 0xaf)) || (t[0] == 0xe2 && t[1] == 0x81 && t[2] == 0x9f) || (t[0] == 0xe3 && t[1] == 0x80
        && t[2] == 0x80)) {
        3
    } else {
        0
    }
}

/// `t` with each white space character outside ASCII replaced by an ASCII
/// space. On UTF-8 text these characters start only where a character
/// starts, so every other character is kept as it is.
pub open spec fn spaces_normalized(t: Seq<u8>) -> Seq<u8>
    decreases t.len(),
{
    if t.len() == 0 {
        t
    } else if wide_space_len(t) > 0 {
        seq![32u8] + spaces_normalized(t.skip(wide_space_len(t)))
    } else {
        seq![t[0]] + spaces_normalized(t.skip(1))
    }
}

/// The words of a line of text, split at white space as
/// `str::split_whitespace` splits; `None` when the line is not UTF-8.
pub open spec fn text_words(line: Seq<u8>) -> Option<Seq<Seq<u8>>> {
    if valid_utf8(line) {
        Some(line_words(spaces_normalized(line)))
    } else {
        None
    }
}

/// Text of ASCII bytes is UTF-8 and holds no white space outside ASCII.
pub proof fn lemma_ascii_text(t: Seq<u8>)
    requires
        forall|i: int| 0 <= i < t.len() ==> #[trigger] t[i] < 128,
    ensures
        valid_utf8(t),
        spaces_normalized(t) == t,
        text_words(t) == Some(line_words(t)),
    decreases t.len(),
{
    if t.len() > 0 {
        let r = t.skip(1);
        assert forall|i: int| 0 <= i < r.len() implies #[trigger] r[i] < 128 by {
            assert(r[i] == t[i + 1]);
        }
        lemma_ascii_text(r);
        let b = t[0];
        assert(b < 128);
        assert((b & 0x7f) <= 0x7f) by (bit_vector);
        assert(t.subrange(1, t.len() as int) =~= r);
        assert(seq![b] + r =~= t);
    }
}

/// The words of a line, separated by white space, and whether the line
/// ends inside a word.
pub open spec fn word_split(line: Seq<u8>) -> (Seq<Seq<u8>>, bool)
    decreases line.len(),
{
    if line.len() == 0 {
        (Seq::empty(), false)
    } else {
        let (w, inside) = word_split(line.drop_last());
        let b = line.last();
        if is_space(b) {
            (w, false)
        } else if inside {
            (w.update(w.len() - 1, w.last().push(b)), true)
        } else {
            (w.push(seq![b]), true)
        }
    }
}

/// The words of a line.
pub open spec fn line_words(line: Seq<u8>) -> Seq<Seq<u8>> {
    word_split(line).0
}

pub open spec fn is_digit(b: u8) -> bool {
    48 <= b <= 57
}

pub open spec fn all_digits(s: Seq<u8>) -> bool {
    forall|i: int| 0 <= i < s.len() ==> #[trigger] is_digit(s[i])
}

/// The number that a string of decimal digits writes.
pub open spec fn digits_value(s: Seq<u8>) -> nat
    decreases s.len(),
{
    if s.len() == 0 {
        0
    } else {
        digits_value(s.drop_last()) * 10 + (s.last() - 48) as nat
    }
}

/// The digits of a word after an optional leading sign `+` (and `-` when
/// `signed`).
pub open spec fn unsigned_part(w: Seq<u8>, signed: bool) -> Seq<u8> {
    if w.len() > 0 && (w[0] == 43 || (signed && w[0] == 45)) {
        w.skip(1)
    } else {
        w
    }
}

/// A word read as a `u16`: an optional `+`, then one or more decimal
/// digits writing a number that fits.
pub open spec fn parse_u16(w: Seq<u8>) -> Option<u16> {
    let d = unsigned_part(w, false);
    if d.len() > 0 && all_digits(d) && digits_value(d) <= u16::MAX {
        Some(digits_value(d) as u16)
    } else {
        None
    }
}

/// A word read as an `i32`: an optional `+` or `-`, then one or more
/// decimal digits, writing a number that fits.
pub open spec fn parse_i32(w: Seq<u8>) -> Option<i32> {
    let d = unsigned_part(w, true);
    let v: int = if w.len() > 0 && w[0] == 45 {
        -digits_value(d)
    } else {
        digits_value(d) as int
    };
    if d.len() > 0 && all_digits(d) && i32::MIN <= v <= i32::MAX {
        Some(v as i32)
    } else {
        None
    }
}

/// The decimal digits of `n`, most significant first, without leading zeros.
pub open spec fn decimal(n: nat) -> Seq<u8>
    decreases n,
{
    if n < 10 {
        seq![(48 + n) as u8]
    } else {
        decimal(n / 10).push((48 + n % 10) as u8)
    }
}

/// `v` in decimal, with a `-` in front when it is negative.
pub open spec fn signed_decimal(v: int) -> Seq<u8> {
    if v < 0 {
        seq![45u8] + decimal((-v) as nat)
    } else {
        decimal(v as nat)
    }
}

pub proof fn lemma_pieces_nonempty(text: Seq<u8>)
    ensures
        newline_pieces(text).len() >= 1,
    decreases text.len(),
{
    if text.len() > 0 {
        lemma_pieces_nonempty(text.drop_last());
    }
}

pub proof fn lemma_word_split_inside(line: Seq<u8>)
    ensures
        word_split(line).1 ==> word_split(line).0.len() >= 1,
    decreases line.len(),
{
    if line.len() > 0 {
        lemma_word_split_inside(line.drop_last());
    }
}

/// A number written with more digits is at least the number its first
/// digits write.
pub proof fn lemma_digits_value_prefix(s: Seq<u8>, k: int)
    requires
        all_digits(s),
        0 <= k <= s.len(),
    ensures
        digits_value(s.take(k)) <= digits_value(s),
    decreases s.len(),
{
    if k < s.len() {
        assert(s.drop_last().take(k) =~= s.take(k));
        lemma_digits_value_prefix(s.drop_last(), k);
    } else {
        assert(s.take(k) =~= s);
    }
}

/// Reading one more digit.
pub proof fn lemma_digits_value_step(s: Seq<u8>, k: int)
    requires
        0 <= k < s.len(),
    ensures
        digits_value(s.take(k + 1)) == digits_value(s.take(k)) * 10 + (s[k] - 48) as nat,
{
    assert(s.take(k + 1).drop_last() =~= s.take(k));
}

/// The decimal digits of `n` are digits and write `n`.
pub proof fn lemma_decimal(n: nat)
    ensures
        decimal(n).len() >= 1,
        all_digits(decimal(n)),
        digits_value(decimal(n)) == n,
    decreases n,
{
    if n >= 10 {
        lemma_decimal(n / 10);
        let d = decimal(n);
        assert(d.drop_last() =~= decimal(n / 10));
        vstd::arithmetic::div_mod::lemma_fundamental_div_mod(n as int, 10);
        assert(d.last() == (48 + n % 10) as u8);
        assert((d.last() - 48) as nat == n % 10);
        assert(digits_value(d) == digits_value(decimal(n / 10)) * 10 + n % 10);
        assert((n / 10) * 10 == 10 * (n / 10)) by (nonlinear_arith);
        assert(digits_value(d) == n);
        assert forall|i: int| 0 <= i < d.len() implies #[trigger] is_digit(d[i]) by {
            if i < d.len() - 1 {
                assert(is_digit(decimal(n / 10)[i]));
            }
        }
    } else {
        assert(decimal(n).drop_last() =~= Seq::<u8>::empty());
        assert(is_digit(decimal(n)[0]));
        assert(digits_value(decimal(n)) == digits_value(decimal(n).drop_last()) * 10 + (decimal(n).last() - 48) as nat);
        assert(digits_value(decimal(n)) == n);
    }
}

/// Reading a number back from its decimal digits.
pub proof fn lemma_parse_u16_decimal(n: u16)
    ensures
        parse_u16(decimal(n as nat)) == Some(n),
{
    lemma_decimal(n as nat);
    assert(is_digit(decimal(n as nat)[0]));
}

/// Reading a signed number back from its decimal form.
pub proof fn lemma_parse_i32_decimal(v: i32)
    ensures
        parse_i32(signed_decimal(v as int)) == Some(v),
{
    if v < 0 {
        let m = (-v) as nat;
        lemma_decimal(m);
        let w = signed_decimal(v as int);
        assert(w.skip(1) =~= decimal(m));
    } else {
        lemma_decimal(v as nat);
        assert(is_digit(decimal(v as nat)[0]));
    }
}

/// A word of digits, read after white space, adds one word.
pub proof fn lemma_words_append_word(s: Seq<u8>, w: Seq<u8>)
    requires
        !word_split(s).1,
        w.len() >= 1,
        forall|i: int| 0 <= i < w.len() ==> !is_space(#[trigger] w[i]),
    ensures
        word_split(s + w) == (word_split(s).0.push(w), true),
    decreases w.len(),
{
    if w.len() == 1 {
        assert((s + w).drop_last() =~= s);
        assert(seq![w[0]] =~= w);
    } else {
        let w0 = w.drop_last();
        lemma_words_append_word(s, w0);
        assert((s + w).drop_last() =~= s + w0);
        assert(w0.push(w.last()) =~= w);
        assert(word_split(s).0.push(w0).update(word_split(s).0.len() as int, w)
            =~= word_split(s).0.push(w));
    }
}

/// A white space byte ends the current word.
pub proof fn lemma_words_append_space(s: Seq<u8>, b: u8)
    requires
        is_space(b),
    ensures
        word_split(s.push(b)) == (word_split(s).0, false),
{
    assert(s.push(b).drop_last() =~= s);
}

/// A line of decimal digits followed by more text without newlines
/// extends the last piece.
pub proof fn lemma_pieces_append(s: Seq<u8>, l: Seq<u8>)
    requires
        forall|i: int| 0 <= i < l.len() ==> #[trigger] l[i] != 10,
    ensures
        newline_pieces(s + l) == newline_pieces(s).update(
            newline_pieces(s).len() - 1,
            newline_pieces(s).last() + l,
        ),
    decreases l.len(),
{
    lemma_pieces_nonempty(s);
    if l.len() == 0 {
        assert(s + l =~= s);
        assert(newline_pieces(s).last() + l =~= newline_pieces(s).last());
        assert(newline_pieces(s).update(newline_pieces(s).len() - 1, newline_pieces(s).last())
            =~= newline_pieces(s));
    } else {
        let l0 = l.drop_last();
        lemma_pieces_append(s, l0);
        assert((s + l).drop_last() =~= s + l0);
        assert((newline_pieces(s).last() + l0).push(l.last()) =~= newline_pieces(s).last() + l);
        let p = newline_pieces(s);
        assert(p.update(p.len() - 1, p.last() + l0).update(p.len() - 1, (p.last() + l0).push(
            l.last(),
        )) =~= p.update(p.len() - 1, p.last() + l));
    }
}

/// A newline starts a new piece.
pub proof fn lemma_pieces_newline(s: Seq<u8>)
    ensures
        newline_pieces(s.push(10)) == newline_pieces(s).push(Seq::<u8>::empty()),
{
    assert(s.push(10).drop_last() =~= s);
}

/// Reads a word as a `u16`.
pub fn parse_u16_word(w: &Vec<u8>) -> (r: Option<u16>)
    ensures
        r == parse_u16(w@),
{
    let ghost d = unsigned_part(w@, false);
    let start: usize = if w.len() > 0 && w[0] == 43 { 1 } else { 0 };
    assert(d =~= w@.skip(start as int));
    if start >= w.len() {
        return None;
    }
    let mut acc: u32 = 0;
    let mut i: usize = start;
    proof {
        assert(d.take(0) =~= Seq::<u8>::empty());
    }
    while i < w.len()
        invariant
            d == w@.skip(start as int),
            d == unsigned_part(w@, false),
            start <= i <= w@.len(),
            all_digits(d.take(i - start)),
            acc == digits_value(d.take(i - start)),
            acc <= u16::MAX,
        decreases w@.len() - i,
    {
        let b: u8 = w[i];
        proof {
            lemma_digits_value_step(d, i - start);
            assert(d[i - start] == b);
        }
        if b < 48 || b > 57 {
            proof {
                assert(!is_digit(d[i - start]));
            }
            return None;
        }
        acc = acc * 10 + (b - 48) as u32;
        proof {
            assert forall|k: int| 0 <= k < d.take(i + 1 - start).len() implies #[trigger] is_digit(
                d.take(i + 1 - start)[k],
            ) by {
                if k < i - start {
                    assert(d.take(i + 1 - start)[k] == d.take(i - start)[k]);
                }
            }
        }
        if acc > 65535 {
            proof {
                assert(d.take(i + 1 - start).len() <= d.len());
                if all_digits(d) {
                    lemma_digits_value_prefix(d, i + 1 - start);
                }
            }
            return None;
        }
        i = i + 1;
    }
    proof {
        assert(d.take(i - start) =~= d);
    }
    Some(acc as u16)
}

/// Reads a word as an `i32`.
pub fn parse_i32_word(w: &Vec<u8>) -> (r: Option<i32>)
    ensures
        r == parse_i32(w@),
{
    let ghost d = unsigned_part(w@, true);
    let negative: bool = w.len() > 0 && w[0] == 45;
    let start: usize = if w.len() > 0 && (w[0] == 43 || w[0] == 45) { 1 } else { 0 };
    assert(d =~= w@.skip(start as int));
    if start >= w.len() {
        return None;
    }
    let mut acc: u64 = 0;
    let mut i: usize = start;
    proof {
        assert(d.take(0) =~= Seq::<u8>::empty());
    }
    while i < w.len()
        invariant
            d == w@.skip(start as int),
            d == unsigned_part(w@, true),
            negative == (w@.len() > 0 && w@[0] == 45),
            start <= i <= w@.len(),
            all_digits(d.take(i - start)),
            acc == digits_value(d.take(i - start)),
            acc <= 0x8000_0000,
        decreases w@.len() - i,
    {
        let b: u8 = w[i];
        proof {
            lemma_digits_value_step(d, i - start);
            assert(d[i - start] == b);
        }
        if b < 48 || b > 57 {
            proof {
                assert(!is_digit(d[i - start]));
            }
            return None;
        }
        acc = acc * 10 + (b - 48) as u64;
        proof {
            assert forall|k: int| 0 <= k < d.take(i + 1 - start).len() implies #[trigger] is_digit(
                d.take(i + 1 - start)[k],
            ) by {
                if k < i - start {
                    assert(d.take(i + 1 - start)[k] == d.take(i - start)[k]);
                }
            }
        }
        if acc > 0x8000_0000 {
            proof {
                if all_digits(d) {
                    lemma_digits_value_prefix(d, i + 1 - start);
                }
            }
            return None;
        }
        i = i + 1;
    }
    proof {
        assert(d.take(i - start) =~= d);
    }
    if negative {
        Some((0 - acc as i64) as i32)
    } else if acc <= 0x7fff_ffff {
        Some(acc as i32)
    } else {
        None
    }
}

/// Appends the decimal digits of `n`.
pub fn push_decimal(out: &mut Vec<u8>, n: u64)
    ensures
        final(out)@ == old(out)@ + decimal(n as nat),
    decreases n,
{
    if n >= 10 {
        push_decimal(out, n / 10);
    }
    out.push((48 + n % 10) as u8);
    proof {
        if n >= 10 {
            assert(old(out)@ + decimal(n as nat) =~= (old(out)@ + decimal((n / 10) as nat)).push(
                (48 + n % 10) as u8,
            ));
        } else {
            assert(old(out)@ + decimal(n as nat) =~= old(out)@.push((48 + n % 10) as u8));
        }
    }
}

/// Appends `v` in decimal, with a `-` in front when it is negative.
pub fn push_signed_decimal(out: &mut Vec<u8>, v: i32)
    ensures
        final(out)@ == old(out)@ + signed_decimal(v as int),
{
    if v < 0 {
        out.push(45);
        let m: u64 = (0 - v as i64) as u64;
        push_decimal(out, m);
        proof {
            assert(old(out)@ + signed_decimal(v as int) =~= old(out)@.push(45) + decimal(m as nat));
        }
    } else {
        push_decimal(out, v as u64);
    }
}

/// Appends bytes.
pub fn push_bytes(out: &mut Vec<u8>, bytes: &[u8])
    ensures
        final(out)@ == old(out)@ + bytes@,
{
    let mut i: usize = 0;
    while i < bytes.len()
        invariant
            i <= bytes@.len(),
            out@ == old(out)@ + bytes@.take(i as int),
        decreases bytes@.len() - i,
    {
        out.push(bytes[i]);
        proof {
            assert(bytes@.take(i + 1) =~= bytes@.take(i as int).push(bytes@[i as int]));
        }
        i = i + 1;
    }
    proof {
        assert(bytes@.take(i as int) =~= bytes@);
    }
}

/// Splits a text into its lines.
pub fn split_lines(text: &Vec<u8>) -> (lines: Vec<Vec<u8>>)
    ensures
        views(lines@) == text_lines(text@),
{
    let mut pieces: Vec<Vec<u8>> = Vec::new();
    let mut current: Vec<u8> = Vec::new();
    let mut i: usize = 0;
    while i < text.len()
        invariant
            i <= text@.len(),
            views(pieces@).push(current@) == newline_pieces(text@.take(i as int)),
        decreases text@.len() - i,
    {
        let b: u8 = text[i];
        proof {
            assert(text@.take(i + 1).drop_last() =~= text@.take(i as int));
            lemma_pieces_nonempty(text@.take(i as int));
        }
        if b == 10 {
            let line = current;
            proof {
                assert(views(pieces@.push(line)) =~= views(pieces@).push(line@));
            }
            pieces.push(line);
            current = Vec::new();
            proof {
                assert(views(pieces@).push(current@) =~= newline_pieces(text@.take(i + 1)));
            }
        } else {
            current.push(b);
            proof {
                assert(views(pieces@).push(current@) =~= newline_pieces(text@.take(i + 1)));
            }
        }
        i = i + 1;
    }
    proof {
        assert(text@.take(i as int) =~= text@);
    }
    if current.len() > 0 {
        proof {
            assert(views(pieces@.push(current)) =~= views(pieces@).push(current@));
        }
        pieces.push(current);
    } else {
        proof {
            assert(views(pieces@).push(current@).drop_last() =~= views(pieces@));
        }
    }
    pieces
}

/// `std::str::from_utf8`: the bytes are accepted as a string exactly
/// when they are UTF-8, which vstd states as `valid_utf8`.
#[verifier::external_body]
pub(crate) fn is_utf8(bytes: &Vec<u8>) -> (ok: bool)
    ensures
        ok == valid_utf8(bytes@),
{
    std::str::from_utf8(bytes.as_slice()).is_ok()
}

/// The length of the white space character outside ASCII that starts at
/// `i`, or 0.
fn wide_space_at(t: &Vec<u8>, i: usize) -> (k: usize)
    requires
        i < t@.len(),
    ensures
        k == wide_space_len(t@.skip(i as int)),
{
    let ghost s = t@.skip(i as int);
    let n: usize = t.len() - i;
    let b0: u8 = t[i];
    if n >= 2 && b0 == 0xc2 {
        let b1: u8 = t[i + 1];
        if b1 == 0x85 || b1 == 0xa0 {
            return 2;
        }
    }
    if n >= 3 {
        let b1: u8 = t[i + 1];
        let b2: u8 = t[i + 2];
        if (b0 == 0xe1 && b1 == 0x9a && b2 == 0x80) || (b0 == 0xe2 && b1 == 0x80 && ((0x80 <= b2
            && b2 <= 0x8a) || b2 == 0xa8 || b2 == 0xa9 || b2 == 0xaf)) || (b0 == 0xe2 && b1 == 0x81
            && b2 == 0x9f) || (b0 == 0xe3 && b1 == 0x80 && b2 == 0x80) {
            return 3;
        }
    }
    0
}

/// Replaces each white space character outside ASCII by an ASCII space.
pub fn normalize_spaces(t: &Vec<u8>) -> (out: Vec<u8>)
    ensures
        out@ == spaces_normalized(t@),
{
    let mut out: Vec<u8> = Vec::new();
    let mut i: usize = 0;
    proof {
        assert(t@.skip(0) =~= t@);
    }
    while i < t.len()
        invariant
            i <= t@.len(),
            spaces_normalized(t@) == out@ + spaces_normalized(t@.skip(i as int)),
        decreases t@.len() - i,
    {
        let ghost s = t@.skip(i as int);
        let k: usize = wide_space_at(t, i);
        if k > 0 {
            proof {
                assert(s.skip(k as int) =~= t@.skip(i + k));
                assert(out@.push(32u8) + spaces_normalized(s.skip(k as int)) =~= out@ + (seq![32u8]
                    + spaces_normalized(s.skip(k as int))));
            }
            out.push(32u8);
            i = i + k;
        } else {
            let b: u8 = t[i];
            proof {
                assert(s.skip(1) =~= t@.skip(i + 1));
                assert(out@.push(b) + spaces_normalized(s.skip(1)) =~= out@ + (seq![b]
                    + spaces_normalized(s.skip(1))));
            }
            out.push(b);
            i = i + 1;
        }
    }
    proof {
        assert(t@.skip(i as int) =~= Seq::<u8>::empty());
        assert(out@ + Seq::<u8>::empty() =~= out@);
    }
    out
}

/// The words of a line of UTF-8 text, or `None` when it is not UTF-8.
pub fn read_words(line: &Vec<u8>) -> (r: Option<Vec<Vec<u8>>>)
    ensures
        match text_words(line@) {
            Some(ws) => r matches Some(v) && views(v@) == ws,
            None => r is None,
        },
{
    if !is_utf8(line) {
        return None;
    }
    let plain: Vec<u8> = normalize_spaces(line);
    Some(split_words(&plain))
}

/// Splits a line into its words.
pub fn split_words(line: &Vec<u8>) -> (words: Vec<Vec<u8>>)
    ensures
        views(words@) == line_words(line@),
{
    let mut words: Vec<Vec<u8>> = Vec::new();
    let mut current: Vec<u8> = Vec::new();
    let mut inside: bool = false;
    let mut i: usize = 0;
    while i < line.len()
        invariant
            i <= line@.len(),
            !inside ==> current@.len() == 0,
            word_split(line@.take(i as int)) == (if inside {
                views(words@).push(current@)
            } else {
                views(words@)
            }, inside),
        decreases line@.len() - i,
    {
        let b: u8 = line[i];
        proof {
            assert(line@.take(i + 1).drop_last() =~= line@.take(i as int));
        }
        if b == 9 || b == 10 || b == 11 || b == 12 || b == 13 || b == 32 {
            if inside {
                let word = current;
                proof {
                    assert(views(words@.push(word)) =~= views(words@).push(word@));
                }
                words.push(word);
                current = Vec::new();
                inside = false;
            }
        } else {
            let ghost before = current@;
            current.push(b);
            proof {
                if inside {
                    assert(views(words@).push(before).update(
                        views(words@).push(before).len() - 1,
                        before.push(b),
                    ) =~= views(words@).push(current@));
                } else {
                    assert(current@ =~= seq![b]);
                }
            }
            inside = true;
        }
        i = i + 1;
    }
    proof {
        assert(line@.take(i as int) =~= line@);
    }
    if inside {
        proof {
            assert(views(words@.push(current)) =~= views(words@).push(current@));
        }
        words.push(current);
    }
    words
}


/// Lines, each followed by a newline.
pub open spec fn join_lines(lines: Seq<Seq<u8>>) -> Seq<u8>
    decreases lines.len(),
{
    if lines.len() == 0 {
        Seq::empty()
    } else {
        join_lines(lines.drop_last()) + lines.last() + seq![10u8]
    }
}

/// One more line.
pub proof fn lemma_join_lines_push(lines: Seq<Seq<u8>>, l: Seq<u8>)
    ensures
        join_lines(lines.push(l)) == join_lines(lines) + l + seq![10u8],
{
    assert(lines.push(l).drop_last() =~= lines);
}

/// No line holds a newline.
pub open spec fn no_newlines(lines: Seq<Seq<u8>>) -> bool {
    forall|i: int, j: int| 0 <= i < lines.len() && 0 <= j < lines[i].len() ==> #[trigger] lines[i][j] != 10
}

/// Lines without newlines, each followed by a newline, are read back as
/// the same lines.
pub proof fn lemma_text_lines_join(lines: Seq<Seq<u8>>)
    requires
        no_newlines(lines),
    ensures
        text_lines(join_lines(lines)) == lines,
{
    lemma_pieces_join(lines);
    lemma_pieces_nonempty(join_lines(lines));
    assert(lines.push(Seq::<u8>::empty()).drop_last() =~= lines);
}

proof fn lemma_pieces_join(lines: Seq<Seq<u8>>)
    requires
        no_newlines(lines),
    ensures
        newline_pieces(join_lines(lines)) == lines.push(Seq::<u8>::empty()),
    decreases lines.len(),
{
    if lines.len() == 0 {
        assert(newline_pieces(Seq::<u8>::empty()) =~= seq![Seq::<u8>::empty()]);
        assert(lines.push(Seq::<u8>::empty()) =~= seq![Seq::<u8>::empty()]);
    } else {
        let prev = lines.drop_last();
        assert forall|i: int, j: int| 0 <= i < prev.len() && 0 <= j < prev[i].len() implies #[trigger] prev[i][j] != 10 by {
            assert(prev[i] == lines[i]);
        }
        lemma_pieces_join(prev);
        let l = lines.last();
        assert forall|j: int| 0 <= j < l.len() implies #[trigger] l[j] != 10 by {
            assert(lines[lines.len() - 1][j] != 10);
        }
        lemma_pieces_append(join_lines(prev), l);
        let q = join_lines(prev);
        assert(prev.push(Seq::<u8>::empty()).update(prev.len() as int, Seq::<u8>::empty() + l) =~= prev.push(l));
        lemma_pieces_newline(q + l);
        assert(join_lines(lines) =~= (q + l).push(10));
        assert(prev.push(l) =~= lines);
    }
}

} // verus!
