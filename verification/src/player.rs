//! Players and the text form of their GUIDs.
use vstd::prelude::*;
use vstd::utf8::*;
use crate::varint::string_from_utf8;

verus! {

/// A player known to the server.
#[derive(Debug)]
pub struct Player {
    pub username: String,
    pub guid: u128,
}

/// The lower-case hexadecimal digit for `d`, which is below 16.
pub open spec fn hex_char(d: u128) -> char {
    if d < 10 {
        (d + 48) as char
    } else {
        (d + 87) as char
    }
}

/// `n` in lower-case hexadecimal with no leading zeros, the form that
/// `{:x?}` prints: `"0"` for zero.
pub open spec fn hex_text(n: u128) -> Seq<char>
    decreases n,
{
    if n < 16 {
        seq![hex_char(n)]
    } else {
        hex_text(n / 16) + seq![hex_char(n % 16)]
    }
}

/// The text that `format_guid` makes of the digits `h`: a dash after the
/// 8th, 12th, 16th and 20th digit, and all remaining digits in the last group.
pub open spec fn dashed(h: Seq<char>) -> Seq<char> {
    h.subrange(0, 8) + seq!['-'] + h.subrange(8, 12) + seq!['-'] + h.subrange(12, 16) + seq!['-']
        + h.subrange(16, 20) + seq!['-'] + h.subrange(20, h.len() as int)
}

/// The smallest GUID whose hexadecimal form has the 20 digits that
/// `format_guid` cuts into groups: 16^19.
pub open spec fn min_formattable_guid() -> u128 {
    0x1000_0000_0000_0000_0000u128
}

/// The bytes of the ASCII characters `cs`.
pub open spec fn ascii_bytes(cs: Seq<char>) -> Seq<u8> {
    Seq::new(cs.len(), |i: int| cs[i] as u8)
}

/// 16 to the power `k`.
pub open spec fn pow16(k: nat) -> nat
    decreases k,
{
    if k == 0 {
        1
    } else {
        16 * pow16((k - 1) as nat)
    }
}

/// The hexadecimal digits of a number are ASCII, and the number has at least
/// 20 of them from 16^19 on.
proof fn lemma_hex_text(n: u128, k: nat)
    ensures
        is_ascii_chars(hex_text(n)),
        hex_text(n).len() >= 1,
        n >= pow16(k) ==> hex_text(n).len() >= k + 1,
    decreases n,
{
    if n >= 16 {
        if k > 0 {
            let p = pow16((k - 1) as nat);
            assert(n >= 16 * p ==> n / 16 >= p) by (nonlinear_arith);
            lemma_hex_text(n / 16, (k - 1) as nat);
        } else {
            lemma_hex_text(n / 16, 0);
        }
        let h = hex_text(n);
        assert(is_ascii_chars(h)) by {
            assert forall|i| 0 <= i < h.len() implies '\0' <= #[trigger] h[i] <= '\u{7f}' by {
                if i < h.len() - 1 {
                    assert(h[i] == hex_text(n / 16)[i]);
                }
            }
        }
    } else {
        if k > 0 {
            lemma_pow16_positive((k - 1) as nat);
        }
    }
}

proof fn lemma_pow16_positive(k: nat)
    ensures
        pow16(k) >= 1,
    decreases k,
{
    if k > 0 {
        lemma_pow16_positive((k - 1) as nat);
    }
}

/// Appends the ASCII bytes of the hexadecimal digits of `n`.
fn push_hex(out: &mut Vec<u8>, n: u128)
    ensures
        final(out)@ == old(out)@ + ascii_bytes(hex_text(n)),
    decreases n,
{
    if n >= 16 {
        push_hex(out, n / 16);
    }
    let d = n % 16;
    let byte: u8 = if d < 10 {
        (d + 48) as u8
    } else {
        (d + 87) as u8
    };
    assert(byte == hex_char(d) as u8);
    out.push(byte);
    assert(out@ =~= old(out)@ + ascii_bytes(hex_text(n)));
}

/// Appends `src[from..to]`.
fn push_range(out: &mut Vec<u8>, src: &Vec<u8>, from: usize, to: usize)
    requires
        from <= to <= src.len(),
    ensures
        final(out)@ == old(out)@ + src@.subrange(from as int, to as int),
{
    let mut i = from;
    while i < to
        invariant
            from <= i <= to <= src.len(),
            out@ == old(out)@ + src@.subrange(from as int, i as int),
        decreases to - i,
    {
        out.push(src[i]);
        i = i + 1;
        assert(out@ =~= old(out)@ + src@.subrange(from as int, i as int));
    }
}

/// Writes a GUID as its hexadecimal digits cut into groups of 8, 4, 4 and 4
/// digits and the rest, joined by dashes.
///
/// The digits carry no leading zeros, so a GUID below 2^124 gives a shorter
/// last group; one below 16^19 has too few digits to cut.
pub fn format_guid(guid: u128) -> (r: String)
    requires
        guid >= min_formattable_guid(),
    ensures
        r@ == dashed(hex_text(guid)),
{
    proof {
        reveal_with_fuel(pow16, 20);
        assert(pow16(19) == 0x1000_0000_0000_0000_0000);
        lemma_hex_text(guid, 19);
    }
    let mut hex: Vec<u8> = Vec::new();
    push_hex(&mut hex, guid);
    let ghost h = hex_text(guid);
    assert(hex@ =~= ascii_bytes(h));
    let mut out: Vec<u8> = Vec::new();
    push_range(&mut out, &hex, 0, 8);
    out.push(45u8);
    push_range(&mut out, &hex, 8, 12);
    out.push(45u8);
    push_range(&mut out, &hex, 12, 16);
    out.push(45u8);
    push_range(&mut out, &hex, 16, 20);
    out.push(45u8);
    push_range(&mut out, &hex, 20, hex.len());
    let ghost text = dashed(h);
    proof {
        assert(is_ascii_chars(text));
        is_ascii_chars_encode_utf8(text);
        assert(out@ =~= encode_utf8(text));
        encode_utf8_valid_utf8(text);
        encode_utf8_decode_utf8(text);
    }
    match string_from_utf8(out) {
        Some(s) => s,
        None => String::new(),  // unreachable: the bytes are ASCII
    }
}

/// A GUID of 32 hexadecimal digits, 16^31 or more, comes out in the usual
/// 8-4-4-4-12 form: 36 characters with dashes at positions 8, 13, 18, 23.
pub proof fn lemma_full_guid_text(guid: u128)
    requires
        guid >= 0x1000_0000_0000_0000_0000_0000_0000_0000u128,
    ensures
        dashed(hex_text(guid)).len() == 36,
        dashed(hex_text(guid))[8] == '-',
        dashed(hex_text(guid))[13] == '-',
        dashed(hex_text(guid))[18] == '-',
        dashed(hex_text(guid))[23] == '-',
{
    reveal_with_fuel(pow16, 32);
    assert(pow16(31) == 0x1000_0000_0000_0000_0000_0000_0000_0000);
    lemma_hex_text(guid, 31);
    lemma_hex_text_len_max(guid);
}

/// The characters of `s` without its dashes.
pub open spec fn remove_dashes(s: Seq<char>) -> Seq<char>
    decreases s.len(),
{
    if s.len() == 0 {
        Seq::empty()
    } else if s.last() == '-' {
        remove_dashes(s.drop_last())
    } else {
        remove_dashes(s.drop_last()).push(s.last())
    }
}

/// How many dashes `s` holds.
pub open spec fn dash_count(s: Seq<char>) -> nat
    decreases s.len(),
{
    if s.len() == 0 {
        0
    } else if s.last() == '-' {
        dash_count(s.drop_last()) + 1
    } else {
        dash_count(s.drop_last())
    }
}

/// The value of a hexadecimal digit, lower or upper case.
pub open spec fn hex_digit_value(c: char) -> nat {
    if '0' <= c && c <= '9' {
        (c as nat - 48) as nat
    } else if 'a' <= c && c <= 'f' {
        (c as nat - 87) as nat
    } else {
        (c as nat - 55) as nat
    }
}

/// The number that the hexadecimal digits `s` spell, as `from_str_radix`
/// with radix 16 reads them.
pub open spec fn hex_value(s: Seq<char>) -> nat
    decreases s.len(),
{
    if s.len() == 0 {
        0
    } else {
        hex_value(s.drop_last()) * 16 + hex_digit_value(s.last())
    }
}

proof fn lemma_remove_dashes_add(a: Seq<char>, b: Seq<char>)
    ensures
        remove_dashes(a + b) == remove_dashes(a) + remove_dashes(b),
        dash_count(a + b) == dash_count(a) + dash_count(b),
    decreases b.len(),
{
    if b.len() == 0 {
        assert(a + b =~= a);
        assert(remove_dashes(a) + remove_dashes(b) =~= remove_dashes(a));
    } else {
        lemma_remove_dashes_add(a, b.drop_last());
        assert((a + b).drop_last() =~= a + b.drop_last());
        assert((a + b).last() == b.last());
        if b.last() != '-' {
            assert(remove_dashes(a) + remove_dashes(b.drop_last()).push(b.last()) =~= (remove_dashes(a)
                + remove_dashes(b.drop_last())).push(b.last()));
        }
    }
}

proof fn lemma_hex_char(d: u128)
    requires
        d < 16,
    ensures
        hex_char(d) != '-',
        hex_digit_value(hex_char(d)) == d,
        is_lower_hex_digit(hex_char(d)),
        d > 0 ==> hex_char(d) != '0',
{
    let c = hex_char(d);
    if d < 10 {
        assert(c as nat == d + 48);
    } else {
        assert(c as nat == d + 87);
    }
}

/// A lower-case hexadecimal digit.
pub open spec fn is_lower_hex_digit(c: char) -> bool {
    ('0' <= c && c <= '9') || ('a' <= c && c <= 'f')
}

/// The digits of a number are lower-case hexadecimal digits, and the first
/// is no zero unless the number is zero.
proof fn lemma_hex_text_lower(n: u128)
    ensures
        forall|i: int| 0 <= i < hex_text(n).len() ==> is_lower_hex_digit(#[trigger] hex_text(n)[i]),
        n > 0 ==> hex_text(n)[0] != '0',
    decreases n,
{
    lemma_hex_char(n % 16);
    if n >= 16 {
        lemma_hex_text_lower(n / 16);
        let h = hex_text(n);
        assert forall|i: int| 0 <= i < h.len() implies is_lower_hex_digit(#[trigger] h[i]) by {
            if i < h.len() - 1 {
                assert(h[i] == hex_text(n / 16)[i]);
            }
        }
        lemma_hex_text(n / 16, 0);
        assert(h[0] == hex_text(n / 16)[0]);
    }
}

/// `format_guid`'s text consists of lower-case hexadecimal digits and
/// dashes only, and does not begin with a zero digit: the digits carry no
/// leading zeros.
pub proof fn lemma_guid_text_lower(guid: u128)
    requires
        guid >= min_formattable_guid(),
    ensures
        forall|i: int|
            0 <= i < dashed(hex_text(guid)).len() ==> (#[trigger] dashed(hex_text(guid))[i] == '-'
                || is_lower_hex_digit(dashed(hex_text(guid))[i])),
        dashed(hex_text(guid))[0] != '0',
        dashed(hex_text(guid)).len() == hex_text(guid).len() + 4,
{
    reveal_with_fuel(pow16, 20);
    assert(pow16(19) == 0x1000_0000_0000_0000_0000);
    lemma_hex_text(guid, 19);
    lemma_hex_text_lower(guid);
    let h = hex_text(guid);
    let t = dashed(h);
    assert forall|i: int| 0 <= i < t.len() implies (#[trigger] t[i] == '-' || is_lower_hex_digit(t[i])) by {
        if i < 8 {
            assert(t[i] == h[i]);
        } else if 8 < i < 13 {
            assert(t[i] == h[i - 1]);
        } else if 13 < i < 18 {
            assert(t[i] == h[i - 2]);
        } else if 18 < i < 23 {
            assert(t[i] == h[i - 3]);
        } else if 23 < i {
            assert(t[i] == h[i - 4]);
        }
    }
    assert(t[0] == h[0]);
}

/// In `format_guid`'s text the dashes stand at positions 8, 13, 18 and 23,
/// after the 8th, 12th, 16th and 20th digit, whatever the number of digits.
pub proof fn lemma_guid_text_dash_positions(guid: u128)
    requires
        guid >= min_formattable_guid(),
    ensures
        dashed(hex_text(guid))[8] == '-',
        dashed(hex_text(guid))[13] == '-',
        dashed(hex_text(guid))[18] == '-',
        dashed(hex_text(guid))[23] == '-',
        forall|i: int|
            0 <= i < dashed(hex_text(guid)).len() && i != 8 && i != 13 && i != 18 && i != 23
                ==> #[trigger] dashed(hex_text(guid))[i] != '-',
{
    reveal_with_fuel(pow16, 20);
    assert(pow16(19) == 0x1000_0000_0000_0000_0000);
    lemma_hex_text(guid, 19);
    lemma_hex_text_value(guid);
    let h = hex_text(guid);
    let t = dashed(h);
    assert forall|i: int| 0 <= i < h.len() implies #[trigger] h[i] != '-' by {
        lemma_hex_text_lower(guid);
        assert(is_lower_hex_digit(h[i]));
    }
    assert forall|i: int| 0 <= i < t.len() && i != 8 && i != 13 && i != 18 && i != 23 implies #[trigger] t[i] != '-' by {
        if i < 8 {
            assert(t[i] == h[i]);
        } else if 8 < i < 13 {
            assert(t[i] == h[i - 1]);
        } else if 13 < i < 18 {
            assert(t[i] == h[i - 2]);
        } else if 18 < i < 23 {
            assert(t[i] == h[i - 3]);
        } else {
            assert(t[i] == h[i - 4]);
        }
    }
}

/// The digits of a number carry no dash, and spell the number.
proof fn lemma_hex_text_value(n: u128)
    ensures
        remove_dashes(hex_text(n)) == hex_text(n),
        dash_count(hex_text(n)) == 0,
        hex_value(hex_text(n)) == n,
    decreases n,
{
    let h = hex_text(n);
    lemma_hex_char(n % 16);
    if n < 16 {
        reveal_with_fuel(remove_dashes, 2);
        reveal_with_fuel(dash_count, 2);
        reveal_with_fuel(hex_value, 2);
        assert(h.drop_last() =~= Seq::<char>::empty());
        assert(remove_dashes(h) =~= h);
    } else {
        lemma_hex_text_value(n / 16);
        assert(h.drop_last() =~= hex_text(n / 16));
        assert(remove_dashes(h) =~= h);
    }
}

/// Taking the dashes out of `format_guid`'s text gives back the hexadecimal
/// digits of the GUID, which spell the GUID; the text holds exactly four
/// dashes.
pub proof fn lemma_guid_text_parses_back(guid: u128)
    requires
        guid >= min_formattable_guid(),
    ensures
        dash_count(dashed(hex_text(guid))) == 4,
        remove_dashes(dashed(hex_text(guid))) == hex_text(guid),
        hex_value(remove_dashes(dashed(hex_text(guid)))) == guid,
{
    reveal_with_fuel(pow16, 20);
    assert(pow16(19) == 0x1000_0000_0000_0000_0000);
    lemma_hex_text(guid, 19);
    lemma_hex_text_value(guid);
    let h = hex_text(guid);
    let d = seq!['-'];
    let g0 = h.subrange(0, 8);
    let g1 = h.subrange(8, 12);
    let g2 = h.subrange(12, 16);
    let g3 = h.subrange(16, 20);
    let g4 = h.subrange(20, h.len() as int);
    assert(h =~= g0 + g1 + g2 + g3 + g4);
    reveal_with_fuel(remove_dashes, 2);
    reveal_with_fuel(dash_count, 2);
    assert(d.drop_last() =~= Seq::<char>::empty());
    assert(remove_dashes(d) =~= Seq::<char>::empty());
    assert(dash_count(d) == 1);
    lemma_remove_dashes_add(g0, d);
    lemma_remove_dashes_add(g0 + d, g1);
    lemma_remove_dashes_add(g0 + d + g1, d);
    lemma_remove_dashes_add(g0 + d + g1 + d, g2);
    lemma_remove_dashes_add(g0 + d + g1 + d + g2, d);
    lemma_remove_dashes_add(g0 + d + g1 + d + g2 + d, g3);
    lemma_remove_dashes_add(g0 + d + g1 + d + g2 + d + g3, d);
    lemma_remove_dashes_add(g0 + d + g1 + d + g2 + d + g3 + d, g4);
    lemma_remove_dashes_add(g0, g1);
    lemma_remove_dashes_add(g0 + g1, g2);
    lemma_remove_dashes_add(g0 + g1 + g2, g3);
    lemma_remove_dashes_add(g0 + g1 + g2 + g3, g4);
    assert(remove_dashes(g0) + remove_dashes(g1) + remove_dashes(g2) + remove_dashes(g3)
        + remove_dashes(g4) == h);
    assert(remove_dashes(dashed(h)) =~= h);
}

/// A `u128` has at most 32 hexadecimal digits.
proof fn lemma_hex_text_len_max(n: u128)
    ensures
        hex_text(n).len() <= 32,
{
    reveal_with_fuel(pow16, 33);
    assert(pow16(32) == 0x1_0000_0000_0000_0000_0000_0000_0000_0000);
    lemma_hex_text_len_below(n, 32);
}

proof fn lemma_hex_text_len_below(n: u128, k: nat)
    requires
        k >= 1,
        n < pow16(k),
    ensures
        hex_text(n).len() <= k,
    decreases n,
{
    if n >= 16 {
        if k == 1 {
            reveal_with_fuel(pow16, 2);
            assert(false);
        } else {
            let p = pow16((k - 1) as nat);
            assert(n < 16 * p ==> n / 16 < p) by (nonlinear_arith);
            lemma_hex_text_len_below(n / 16, (k - 1) as nat);
        }
    }
}

} // verus!
