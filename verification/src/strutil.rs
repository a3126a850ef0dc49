//! Small verified string helpers: comparison, prefix handling, decimal
//! rendering, and the view of a vector of strings.

use vstd::prelude::*;
use vstd::string::StrSliceExecFns;
use vstd::string::StringExecFns;

verus! {

/// The character views of a vector of strings.
pub open spec fn views_of(v: Seq<String>) -> Seq<Seq<char>> {
    v.map_values(|s: String| s@)
}

pub proof fn lemma_views_of_push(v: Seq<String>, s: String)
    ensures
        views_of(v.push(s)) == views_of(v).push(s@),
{
    assert(views_of(v.push(s)) =~= views_of(v).push(s@));
}

/// Character-for-character string equality.
pub fn str_eq(a: &str, b: &str) -> (r: bool)
    ensures
        r == (a@ == b@),
{
    let alen = a.unicode_len();
    let blen = b.unicode_len();
    if alen != blen {
        return false;
    }
    let mut i: usize = 0;
    while i < alen
        invariant
            0 <= i <= alen,
            alen == a@.len(),
            alen == b@.len(),
            forall|k: int| 0 <= k < i ==> a@[k] == b@[k],
        decreases alen - i,
    {
        if a.get_char(i) != b.get_char(i) {
            return false;
        }
        i += 1;
    }
    proof {
        assert(a@ =~= b@);
    }
    true
}

/// Whether the view of `a` begins with the view of `p`.
pub open spec fn spec_starts_with(a: Seq<char>, p: Seq<char>) -> bool {
    a.len() >= p.len() && a.subrange(0, p.len() as int) == p
}

pub fn str_starts_with(a: &str, p: &str) -> (r: bool)
    ensures
        r == spec_starts_with(a@, p@),
{
    let alen = a.unicode_len();
    let plen = p.unicode_len();
    if alen < plen {
        return false;
    }
    let mut i: usize = 0;
    while i < plen
        invariant
            0 <= i <= plen,
            alen == a@.len(),
            plen == p@.len(),
            alen >= plen,
            forall|k: int| 0 <= k < i ==> a@[k] == p@[k],
        decreases plen - i,
    {
        if a.get_char(i) != p.get_char(i) {
            proof {
                if a@.subrange(0, p@.len() as int) == p@ {
                    assert(a@.subrange(0, p@.len() as int)[i as int] == a@[i as int]);
                }
            }
            return false;
        }
        i += 1;
    }
    proof {
        assert(a@.subrange(0, p@.len() as int) =~= p@);
    }
    true
}

/// The suffix of `a` after its first `n` characters.
pub fn str_suffix_from<'a>(a: &'a str, n: usize) -> (r: &'a str)
    requires
        n <= a@.len(),
    ensures
        r@ == a@.subrange(n as int, a@.len() as int),
{
    let alen = a.unicode_len();
    a.substring_char(n, alen)
}

/// The index of the last occurrence of `c` in `s`, or -1 if there is none.
pub open spec fn last_index_of(s: Seq<char>, c: char) -> int
    decreases s.len(),
{
    if s.len() == 0 {
        -1
    } else if s.last() == c {
        s.len() - 1
    } else {
        last_index_of(s.drop_last(), c)
    }
}

pub proof fn lemma_last_index_of_bounds(s: Seq<char>, c: char)
    ensures
        -1 <= last_index_of(s, c) < s.len(),
        last_index_of(s, c) >= 0 ==> s[last_index_of(s, c)] == c,
        forall|k: int| last_index_of(s, c) < k < s.len() ==> s[k] != c,
    decreases s.len(),
{
    if s.len() > 0 && s.last() != c {
        lemma_last_index_of_bounds(s.drop_last(), c);
        assert forall|k: int| last_index_of(s, c) < k < s.len() implies s[k] != c by {
            if k < s.len() - 1 {
                assert(s.drop_last()[k] == s[k]);
            }
        }
    }
}

/// A position holding `c` with nothing but other characters after it is the
/// last occurrence.
pub proof fn lemma_last_index_of_from_facts(s: Seq<char>, c: char, p: int)
    requires
        0 <= p < s.len(),
        s[p] == c,
        forall|k: int| p < k < s.len() ==> s[k] != c,
    ensures
        last_index_of(s, c) == p,
    decreases s.len(),
{
    if p == s.len() - 1 {
    } else {
        assert(s.last() != c);
        assert(s.drop_last()[p] == s[p]);
        lemma_last_index_of_from_facts(s.drop_last(), c, p);
    }
}

/// The position of the last occurrence of `c` in `s`, if any.
pub fn find_last(s: &str, c: char) -> (r: Option<usize>)
    ensures
        r matches Some(i) ==> i == last_index_of(s@, c),
        r is None ==> last_index_of(s@, c) == -1,
{
    let len = s.unicode_len();
    let mut i: usize = len;
    proof {
        assert(s@.subrange(0, len as int) =~= s@);
    }
    while i > 0
        invariant
            0 <= i <= len,
            len == s@.len(),
            last_index_of(s@, c) == last_index_of(s@.subrange(0, i as int), c),
        decreases i,
    {
        i -= 1;
        let ghost pre = s@.subrange(0, i + 1);
        proof {
            assert(pre.last() == s@[i as int]);
            assert(pre.drop_last() =~= s@.subrange(0, i as int));
        }
        if s.get_char(i) == c {
            return Some(i);
        }
    }
    proof {
        assert(s@.subrange(0, 0) =~= Seq::<char>::empty());
    }
    None
}

/// The decimal digit characters of `n`, most significant first, no leading zeros.
pub open spec fn dec_seq(n: nat) -> Seq<char>
    decreases n,
{
    if n < 10 {
        seq![crate::hex::hex_char(n)]
    } else {
        dec_seq(n / 10).push(crate::hex::hex_char(n % 10))
    }
}

/// Appends `n` in decimal to `out`.
pub fn append_dec(out: &mut String, n: u64)
    ensures
        final(out)@ == old(out)@ + dec_seq(n as nat),
    decreases n,
{
    if n < 10 {
        append_dec_digit(out, (n % 10) as u8);
        proof {
            assert(old(out)@ + dec_seq(n as nat) =~= old(out)@.push(
                crate::hex::hex_char(n as nat),
            ));
        }
    } else {
        append_dec(out, n / 10);
        append_dec_digit(out, (n % 10) as u8);
        proof {
            assert((n as nat) / 10 == (n / 10) as nat);
            assert((n as nat) % 10 == (n % 10) as nat);
            assert(old(out)@ + dec_seq((n / 10) as nat).push(crate::hex::hex_char((n % 10) as nat))
                =~= (old(out)@ + dec_seq((n / 10) as nat)).push(
                crate::hex::hex_char((n % 10) as nat),
            ));
        }
    }
}

fn append_dec_digit(out: &mut String, d: u8)
    requires
        d < 10,
    ensures
        final(out)@ == old(out)@.push(crate::hex::hex_char(d as nat)),
{
    let ds: &'static str = match d {
        0 => "0",
        1 => "1",
        2 => "2",
        3 => "3",
        4 => "4",
        5 => "5",
        6 => "6",
        7 => "7",
        8 => "8",
        _ => "9",
    };
    proof {
        reveal_strlit("0");
        reveal_strlit("1");
        reveal_strlit("2");
        reveal_strlit("3");
        reveal_strlit("4");
        reveal_strlit("5");
        reveal_strlit("6");
        reveal_strlit("7");
        reveal_strlit("8");
        reveal_strlit("9");
        assert(ds@ =~= seq![crate::hex::hex_char(d as nat)]);
    }
    out.append(ds);
    proof {
        assert(old(out)@ + ds@ =~= old(out)@.push(crate::hex::hex_char(d as nat)));
    }
}

} // verus!
