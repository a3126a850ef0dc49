//! Fixed-width lowercase hexadecimal rendering and parsing, with the two
//! inverse lemmas that make name round-trips provable.

use vstd::prelude::*;
use vstd::arithmetic::div_mod::{lemma_fundamental_div_mod, lemma_fundamental_div_mod_converse};

verus! {

/// The hexadecimal digit character for a value below 16.
pub open spec fn hex_char(d: nat) -> char {
    if d == 0 { '0' } else if d == 1 { '1' } else if d == 2 { '2' } else if d == 3 { '3' }
    else if d == 4 { '4' } else if d == 5 { '5' } else if d == 6 { '6' } else if d == 7 { '7' }
    else if d == 8 { '8' } else if d == 9 { '9' } else if d == 10 { 'a' } else if d == 11 { 'b' }
    else if d == 12 { 'c' } else if d == 13 { 'd' } else if d == 14 { 'e' } else { 'f' }
}

/// Whether `c` is one of the sixteen lowercase hexadecimal digit characters.
pub open spec fn is_hex_char(c: char) -> bool {
    c == '0' || c == '1' || c == '2' || c == '3' || c == '4' || c == '5' || c == '6' || c == '7'
    || c == '8' || c == '9' || c == 'a' || c == 'b' || c == 'c' || c == 'd' || c == 'e' || c == 'f'
}

/// The value of a hexadecimal digit character (16 for any other character).
pub open spec fn hex_char_val(c: char) -> nat {
    if c == '0' { 0 } else if c == '1' { 1 } else if c == '2' { 2 } else if c == '3' { 3 }
    else if c == '4' { 4 } else if c == '5' { 5 } else if c == '6' { 6 } else if c == '7' { 7 }
    else if c == '8' { 8 } else if c == '9' { 9 } else if c == 'a' { 10 } else if c == 'b' { 11 }
    else if c == 'c' { 12 } else if c == 'd' { 13 } else if c == 'e' { 14 } else if c == 'f' { 15 }
    else { 16 }
}

pub open spec fn pow16(w: nat) -> nat
    decreases w,
{
    if w == 0 { 1 } else { 16 * pow16((w - 1) as nat) }
}

/// `v` written as exactly `w` lowercase hexadecimal digits, most significant first.
/// Digits beyond the width are lost, so renderings are faithful only for `v < pow16(w)`.
pub open spec fn hex_seq(v: nat, w: nat) -> Seq<char>
    decreases w,
{
    if w == 0 { Seq::empty() } else { hex_seq(v / 16, (w - 1) as nat).push(hex_char(v % 16)) }
}

pub open spec fn is_hex_digits(s: Seq<char>) -> bool {
    forall|i: int| 0 <= i < s.len() ==> is_hex_char(#[trigger] s[i])
}

/// The numeric value of a sequence of hexadecimal digit characters.
pub open spec fn hex_val_seq(s: Seq<char>) -> nat
    decreases s.len(),
{
    if s.len() == 0 { 0 } else { hex_val_seq(s.drop_last()) * 16 + hex_char_val(s.last()) }
}

pub proof fn lemma_hex_seq_len(v: nat, w: nat)
    ensures
        hex_seq(v, w).len() == w,
    decreases w,
{
    if w > 0 {
        lemma_hex_seq_len(v / 16, (w - 1) as nat);
    }
}

pub proof fn lemma_hex_seq_digits(v: nat, w: nat)
    ensures
        is_hex_digits(hex_seq(v, w)),
    decreases w,
{
    if w > 0 {
        lemma_hex_seq_digits(v / 16, (w - 1) as nat);
        lemma_hex_seq_len(v / 16, (w - 1) as nat);
        assert forall|i: int| 0 <= i < hex_seq(v, w).len() implies is_hex_char(
            #[trigger] hex_seq(v, w)[i],
        ) by {
            if i < w - 1 {
                assert(hex_seq(v, w)[i] == hex_seq(v / 16, (w - 1) as nat)[i]);
            } else {
                assert(hex_seq(v, w)[i] == hex_char(v % 16));
            }
        }
    }
}

pub proof fn lemma_pow16_pos(a: nat)
    ensures
        pow16(a) >= 1,
    decreases a,
{
    if a > 0 {
        lemma_pow16_pos((a - 1) as nat);
    }
}

pub proof fn lemma_pow16_monotonic(a: nat, b: nat)
    requires
        a <= b,
    ensures
        pow16(a) <= pow16(b),
        pow16(a) >= 1,
    decreases b,
{
    lemma_pow16_pos(a);
    if a < b {
        lemma_pow16_monotonic(a, (b - 1) as nat);
        lemma_pow16_pos((b - 1) as nat);
        assert(pow16(b) == 16 * pow16((b - 1) as nat));
    }
}

pub proof fn lemma_pow16_32()
    ensures
        pow16(32) == 0x100000000000000000000000000000000nat,
{
    reveal_with_fuel(pow16, 33);
}

/// A value below the width's bound is recovered from its own rendering.
pub proof fn lemma_hex_val_of_hex_seq(v: nat, w: nat)
    requires
        v < pow16(w),
    ensures
        hex_val_seq(hex_seq(v, w)) == v,
    decreases w,
{
    if w == 0 {
        assert(hex_seq(v, 0) =~= Seq::<char>::empty());
    } else {
        let s = hex_seq(v, w);
        lemma_hex_seq_len(v / 16, (w - 1) as nat);
        assert(s.drop_last() =~= hex_seq(v / 16, (w - 1) as nat));
        lemma_fundamental_div_mod(v as int, 16);
        assert(v / 16 < pow16((w - 1) as nat)) by {
            if v / 16 >= pow16((w - 1) as nat) {
                assert(v >= 16 * pow16((w - 1) as nat));
            }
        }
        lemma_hex_val_of_hex_seq(v / 16, (w - 1) as nat);
        assert(hex_char_val(hex_char(v % 16)) == v % 16);
    }
}

/// A sequence of hexadecimal digits is the rendering of its own value,
/// and that value is below the width's bound.
pub proof fn lemma_hex_seq_of_hex_val(s: Seq<char>)
    requires
        is_hex_digits(s),
    ensures
        hex_val_seq(s) < pow16(s.len()),
        hex_seq(hex_val_seq(s), s.len()) == s,
    decreases s.len(),
{
    if s.len() == 0 {
        assert(hex_seq(0, 0) =~= Seq::<char>::empty());
        assert(s =~= Seq::<char>::empty());
    } else {
        let prefix = s.drop_last();
        assert(is_hex_digits(prefix)) by {
            assert forall|i: int| 0 <= i < prefix.len() implies is_hex_char(
                #[trigger] prefix[i],
            ) by {
                assert(prefix[i] == s[i]);
            }
        }
        lemma_hex_seq_of_hex_val(prefix);
        let hi = hex_val_seq(prefix);
        let d = hex_char_val(s.last());
        assert(is_hex_char(s.last()));
        assert(d < 16);
        assert(hex_char(d) == s.last());
        let v = hex_val_seq(s);
        assert(v == hi * 16 + d);
        assert(v < pow16(s.len())) by {
            assert(hi <= pow16(prefix.len()) - 1);
            assert(hi * 16 <= (pow16(prefix.len()) - 1) * 16) by (nonlinear_arith)
                requires hi <= pow16(prefix.len()) - 1,
            ;
            assert(pow16(s.len()) == 16 * pow16(prefix.len()));
        }
        lemma_fundamental_div_mod_converse(v as int, 16, hi as int, d as int);
        assert(v / 16 == hi);
        assert(v % 16 == d);
        assert(hex_seq(v, s.len()) == hex_seq(hi, prefix.len()).push(hex_char(d)));
        assert(hex_seq(hi, prefix.len()).push(s.last()) =~= s);
    }
}

fn hex_digit_str(d: u8) -> (r: &'static str)
    requires
        d < 16,
    ensures
        r@ == seq![hex_char(d as nat)],
{
    let r: &'static str = match d {
        0 => "0",
        1 => "1",
        2 => "2",
        3 => "3",
        4 => "4",
        5 => "5",
        6 => "6",
        7 => "7",
        8 => "8",
        9 => "9",
        10 => "a",
        11 => "b",
        12 => "c",
        13 => "d",
        14 => "e",
        _ => "f",
    };
    proof {
        reveal_strlit("0");
        reveal_strlit("1");
        reveal_strlit("2");
        reveal_strlit("3");
        reveal_strlit("4");
        reveal_strlit("5");
        reveal_strlit("6");
        reveal_strlit("7");
        reveal_strlit("8");
        reveal_strlit("9");
        reveal_strlit("a");
        reveal_strlit("b");
        reveal_strlit("c");
        reveal_strlit("d");
        reveal_strlit("e");
        reveal_strlit("f");
        assert(r@ =~= seq![hex_char(d as nat)]);
    }
    r
}

/// Appends `v` to `out` as exactly `width` lowercase hexadecimal digits.
pub fn append_hex(out: &mut String, v: u128, width: usize)
    requires
        width <= 32,
    ensures
        final(out)@ == old(out)@ + hex_seq(v as nat, width as nat),
    decreases width,
{
    if width == 0 {
        proof {
            assert(old(out)@ + hex_seq(v as nat, 0) =~= old(out)@);
        }
        return;
    }
    append_hex(out, v / 16, width - 1);
    let d: u8 = (v % 16) as u8;
    let ds = hex_digit_str(d);
    out.append(ds);
    proof {
        assert((v as nat) / 16 == (v / 16) as nat);
        assert((v as nat) % 16 == (v % 16) as nat);
        assert(old(out)@ + hex_seq((v / 16) as nat, (width - 1) as nat) + ds@ =~= old(out)@
            + hex_seq(v as nat, width as nat));
    }
}

/// The value of a hexadecimal digit character, or `None` for any other character.
pub fn hex_digit_val(c: char) -> (r: Option<u8>)
    ensures
        r is Some <==> is_hex_char(c),
        r matches Some(d) ==> d as nat == hex_char_val(c) && d < 16,
{
    match c {
        '0' => Some(0),
        '1' => Some(1),
        '2' => Some(2),
        '3' => Some(3),
        '4' => Some(4),
        '5' => Some(5),
        '6' => Some(6),
        '7' => Some(7),
        '8' => Some(8),
        '9' => Some(9),
        'a' => Some(10),
        'b' => Some(11),
        'c' => Some(12),
        'd' => Some(13),
        'e' => Some(14),
        'f' => Some(15),
        _ => None,
    }
}

/// Parses `s[from..to]` as lowercase hexadecimal digits, most significant first.
pub fn parse_hex(s: &str, from: usize, to: usize) -> (r: Option<u128>)
    requires
        from <= to <= s@.len(),
        to - from <= 32,
    ensures
        r is Some <==> is_hex_digits(s@.subrange(from as int, to as int)),
        r matches Some(v) ==> v as nat == hex_val_seq(s@.subrange(from as int, to as int))
            && (v as nat) < pow16((to - from) as nat),
    decreases to - from,
{
    let ghost sub = s@.subrange(from as int, to as int);
    if to == from {
        proof {
            assert(sub =~= Seq::<char>::empty());
        }
        return Some(0);
    }
    let ghost subp = s@.subrange(from as int, to - 1 as int);
    proof {
        assert(subp =~= sub.drop_last());
        assert(sub.last() == s@[to - 1]);
    }
    let hi = parse_hex(s, from, to - 1);
    let c = s.get_char(to - 1);
    let d = hex_digit_val(c);
    match (hi, d) {
        (Some(hi), Some(d)) => {
            proof {
                assert(is_hex_digits(sub)) by {
                    assert forall|i: int| 0 <= i < sub.len() implies is_hex_char(
                        #[trigger] sub[i],
                    ) by {
                        if i < sub.len() - 1 {
                            assert(sub[i] == subp[i]);
                        }
                    }
                }
                lemma_pow16_monotonic((to - from - 1) as nat, 31);
                lemma_pow16_32();
                assert(pow16((to - from) as nat) == 16 * pow16((to - from - 1) as nat));
                assert((hi as nat) * 16 + (d as nat) < pow16((to - from) as nat)) by (nonlinear_arith)
                    requires
                        (hi as nat) < pow16((to - from - 1) as nat),
                        (d as nat) < 16,
                        pow16((to - from) as nat) == 16 * pow16((to - from - 1) as nat),
                ;
                assert(16 * pow16(31) == pow16(32));
                assert((hi as nat) * 16 + (d as nat) < pow16(32));
            }
            Some(hi * 16 + (d as u128))
        },
        (None, _) => {
            proof {
                if is_hex_digits(sub) {
                    assert forall|i: int| 0 <= i < subp.len() implies is_hex_char(
                        #[trigger] subp[i],
                    ) by {
                        assert(subp[i] == sub[i]);
                    }
                }
            }
            None
        },
        (_, None) => {
            proof {
                if is_hex_digits(sub) {
                    assert(is_hex_char(sub[sub.len() - 1]));
                }
            }
            None
        },
    }
}

} // verus!
