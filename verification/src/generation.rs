//! Generation tags: an optional, totally ordered version number attached to a
//! storage object, with the absent tag ordered below every concrete one.

use vstd::prelude::*;
use vstd::string::StringExecFns;
use vstd::string::StrSliceExecFns;
use crate::hex::{hex_seq, is_hex_digits, hex_val_seq, append_hex, parse_hex, pow16,
    lemma_hex_seq_of_hex_val};

verus! {

#[derive(Clone, Copy, PartialEq, Eq, Structural, Debug)]
pub enum Generation {
    /// No generation suffix: the legacy layout, treated as older than every
    /// concrete generation.
    Absent,
    Valid(u32),
}

impl Generation {
    pub fn none() -> (r: Generation)
        ensures
            r == Generation::Absent,
    {
        Generation::Absent
    }

    pub fn new(n: u32) -> (r: Generation)
        ensures
            r == Generation::Valid(n),
    {
        Generation::Valid(n)
    }

    /// The strict order: absent below every concrete generation, concrete
    /// generations ordered numerically.
    pub open spec fn spec_lt(self, other: Generation) -> bool {
        match (self, other) {
            (Generation::Absent, Generation::Valid(_)) => true,
            (Generation::Valid(a), Generation::Valid(b)) => a < b,
            _ => false,
        }
    }

    pub fn lt(&self, other: &Generation) -> (r: bool)
        ensures
            r == self.spec_lt(*other),
    {
        match (self, other) {
            (Generation::Absent, Generation::Valid(_)) => true,
            (Generation::Valid(a), Generation::Valid(b)) => a < b,
            _ => false,
        }
    }
}

/// The generation order is a strict total order with the absent tag as its
/// least element and concrete generations ordered numerically.
pub proof fn lemma_generation_order(a: Generation, b: Generation, c: Generation)
    ensures
        !a.spec_lt(a),
        a.spec_lt(b) && b.spec_lt(c) ==> a.spec_lt(c),
        a != b ==> a.spec_lt(b) || b.spec_lt(a),
        a is Valid ==> Generation::Absent.spec_lt(a),
        forall|x: u32, y: u32| Generation::Valid(x).spec_lt(Generation::Valid(y)) <==> x < y,
{
}

/// The suffix a generation adds to an object name: empty when absent,
/// otherwise a dash and eight lowercase hexadecimal digits.
pub open spec fn gen_suffix_seq(g: Generation) -> Seq<char> {
    match g {
        Generation::Absent => Seq::empty(),
        Generation::Valid(n) => seq!['-'] + hex_seq(n as nat, 8),
    }
}

pub fn append_gen_suffix(out: &mut String, g: &Generation)
    ensures
        final(out)@ == old(out)@ + gen_suffix_seq(*g),
{
    match g {
        Generation::Absent => {
            proof {
                assert(old(out)@ + gen_suffix_seq(*g) =~= old(out)@);
            }
        },
        Generation::Valid(n) => {
            proof {
                reveal_strlit("-");
            }
            out.append("-");
            append_hex(out, *n as u128, 8);
            proof {
                assert("-"@ =~= seq!['-']);
                assert(old(out)@ + "-"@ + hex_seq(*n as nat, 8) =~= old(out)@ + gen_suffix_seq(
                    *g,
                ));
            }
        },
    }
}

pub proof fn lemma_pow16_8()
    ensures
        pow16(8) == 0x100000000nat,
{
    reveal_with_fuel(pow16, 9);
}

/// Parses an eight-character generation suffix (without its leading dash).
pub fn parse_suffix(s: &str) -> (r: Option<Generation>)
    ensures
        r is Some <==> s@.len() == 8 && is_hex_digits(s@),
        r matches Some(g) ==> g == Generation::Valid((hex_val_seq(s@) as u32))
            && s@ == hex_seq(hex_val_seq(s@), 8),
{
    let len = s.unicode_len();
    if len != 8 {
        return None;
    }
    let v = parse_hex(s, 0, 8);
    proof {
        assert(s@.subrange(0, 8) =~= s@);
    }
    match v {
        Some(v) => {
            proof {
                lemma_pow16_8();
                lemma_hex_seq_of_hex_val(s@);
            }
            Some(Generation::Valid(v as u32))
        },
        None => None,
    }
}

} // verus!
