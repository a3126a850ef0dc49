//! Layer descriptors and their object names.
//!
//! A layer object's name encodes its descriptor: an image layer is
//! `<key_start>-<key_end>__<lsn>` and a delta layer is
//! `<key_start>-<key_end>__<lsn_start>-<lsn_end>`, keys and LSNs written as 16
//! lowercase hexadecimal digits. A generation suffix, when present, appends a
//! dash and eight hexadecimal digits. The grammar is canonical: parsing
//! succeeds exactly on rendered names, which gives the round-trip law.

use vstd::prelude::*;
use vstd::string::StrSliceExecFns;
use vstd::string::StringExecFns;
use crate::hex::{hex_seq, is_hex_digits, hex_val_seq, is_hex_char, append_hex, parse_hex, pow16,
    lemma_hex_seq_len, lemma_hex_seq_digits, lemma_hex_val_of_hex_seq};
use crate::generation::{Generation, gen_suffix_seq, append_gen_suffix, lemma_pow16_8};
use crate::ids::{TenantId, TimelineId, ShardIndex, id_seq, shard_suffix_seq, append_id,
    append_shard_suffix};
use crate::strutil::{last_index_of, lemma_last_index_of_bounds, lemma_last_index_of_from_facts};

verus! {

/// A layer's identity: kind, key range `[key_start, key_end)`, and for delta
/// layers an LSN range `[lsn_start, lsn_end)`; an image layer sits at a single
/// LSN.
#[derive(Clone, Copy, PartialEq, Eq, Structural, Debug)]
pub enum LayerName {
    Image { key_start: u64, key_end: u64, lsn: u64 },
    Delta { key_start: u64, key_end: u64, lsn_start: u64, lsn_end: u64 },
}

impl LayerName {
    pub fn is_delta(&self) -> (r: bool)
        ensures
            r == (self is Delta),
    {
        match self {
            LayerName::Delta { .. } => true,
            LayerName::Image { .. } => false,
        }
    }
}

pub proof fn lemma_pow16_16()
    ensures
        pow16(16) == 0x10000000000000000nat,
{
    reveal_with_fuel(pow16, 17);
}

/// The descriptor part of a layer object's name.
pub open spec fn layer_name_seq(n: LayerName) -> Seq<char> {
    match n {
        LayerName::Image { key_start, key_end, lsn } => hex_seq(key_start as nat, 16)
            + seq!['-'] + hex_seq(key_end as nat, 16) + seq!['_', '_'] + hex_seq(lsn as nat, 16),
        LayerName::Delta { key_start, key_end, lsn_start, lsn_end } => hex_seq(
            key_start as nat,
            16,
        ) + seq!['-'] + hex_seq(key_end as nat, 16) + seq!['_', '_'] + hex_seq(
            lsn_start as nat,
            16,
        ) + seq!['-'] + hex_seq(lsn_end as nat, 16),
    }
}

/// The full object name of a layer under a generation.
pub open spec fn layer_key_seq(n: LayerName, g: Generation) -> Seq<char> {
    layer_name_seq(n) + gen_suffix_seq(g)
}

pub fn append_layer_name(out: &mut String, n: &LayerName)
    ensures
        final(out)@ == old(out)@ + layer_name_seq(*n),
{
    proof {
        reveal_strlit("-");
        reveal_strlit("__");
        assert("-"@ =~= seq!['-']);
        assert("__"@ =~= seq!['_', '_']);
    }
    match n {
        LayerName::Image { key_start, key_end, lsn } => {
            append_hex(out, *key_start as u128, 16);
            out.append("-");
            append_hex(out, *key_end as u128, 16);
            out.append("__");
            append_hex(out, *lsn as u128, 16);
            proof {
                assert(final(out)@ =~= old(out)@ + layer_name_seq(*n));
            }
        },
        LayerName::Delta { key_start, key_end, lsn_start, lsn_end } => {
            append_hex(out, *key_start as u128, 16);
            out.append("-");
            append_hex(out, *key_end as u128, 16);
            out.append("__");
            append_hex(out, *lsn_start as u128, 16);
            out.append("-");
            append_hex(out, *lsn_end as u128, 16);
            proof {
                assert(final(out)@ =~= old(out)@ + layer_name_seq(*n));
            }
        },
    }
}

/// Renders the full object name of a layer under a generation.
pub fn render_layer_key(n: &LayerName, g: &Generation) -> (r: String)
    ensures
        r@ == layer_key_seq(*n, *g),
{
    let mut out = String::new();
    append_layer_name(&mut out, n);
    append_gen_suffix(&mut out, g);
    proof {
        assert(out@ =~= layer_key_seq(*n, *g));
    }
    out
}

/// The descriptor grammar: 51 characters for an image layer, 68 for a delta
/// layer, hexadecimal fields at fixed positions.
pub open spec fn spec_parse_layer_name(s: Seq<char>) -> Option<LayerName> {
    if s.len() == 51 && s[16] == '-' && s[33] == '_' && s[34] == '_' && is_hex_digits(
        s.subrange(0, 16),
    ) && is_hex_digits(s.subrange(17, 33)) && is_hex_digits(s.subrange(35, 51)) {
        Some(
            LayerName::Image {
                key_start: hex_val_seq(s.subrange(0, 16)) as u64,
                key_end: hex_val_seq(s.subrange(17, 33)) as u64,
                lsn: hex_val_seq(s.subrange(35, 51)) as u64,
            },
        )
    } else if s.len() == 68 && s[16] == '-' && s[33] == '_' && s[34] == '_' && s[51] == '-'
        && is_hex_digits(s.subrange(0, 16)) && is_hex_digits(s.subrange(17, 33)) && is_hex_digits(
        s.subrange(35, 51),
    ) && is_hex_digits(s.subrange(52, 68)) {
        Some(
            LayerName::Delta {
                key_start: hex_val_seq(s.subrange(0, 16)) as u64,
                key_end: hex_val_seq(s.subrange(17, 33)) as u64,
                lsn_start: hex_val_seq(s.subrange(35, 51)) as u64,
                lsn_end: hex_val_seq(s.subrange(52, 68)) as u64,
            },
        )
    } else {
        None
    }
}

pub fn parse_layer_name(s: &str) -> (r: Option<LayerName>)
    ensures
        r == spec_parse_layer_name(s@),
{
    let len = s.unicode_len();
    if len == 51 {
        if s.get_char(16) != '-' || s.get_char(33) != '_' || s.get_char(34) != '_' {
            return None;
        }
        let ks = parse_hex(s, 0, 16);
        let ke = parse_hex(s, 17, 33);
        let ln = parse_hex(s, 35, 51);
        match (ks, ke, ln) {
            (Some(a), Some(b), Some(c)) => {
                proof {
                    lemma_pow16_16();
                }
                Some(
                    LayerName::Image {
                        key_start: a as u64,
                        key_end: b as u64,
                        lsn: c as u64,
                    },
                )
            },
            _ => None,
        }
    } else if len == 68 {
        if s.get_char(16) != '-' || s.get_char(33) != '_' || s.get_char(34) != '_' || s.get_char(51)
            != '-' {
            return None;
        }
        let ks = parse_hex(s, 0, 16);
        let ke = parse_hex(s, 17, 33);
        let ls = parse_hex(s, 35, 51);
        let le = parse_hex(s, 52, 68);
        match (ks, ke, ls, le) {
            (Some(a), Some(b), Some(c), Some(d)) => {
                proof {
                    lemma_pow16_16();
                }
                Some(
                    LayerName::Delta {
                        key_start: a as u64,
                        key_end: b as u64,
                        lsn_start: c as u64,
                        lsn_end: d as u64,
                    },
                )
            },
            _ => None,
        }
    } else {
        None
    }
}

/// Rendering a descriptor and parsing it back recovers the descriptor.
pub proof fn lemma_layer_name_roundtrip(n: LayerName)
    ensures
        spec_parse_layer_name(layer_name_seq(n)) == Some(n),
{
    let s = layer_name_seq(n);
    lemma_pow16_16();
    match n {
        LayerName::Image { key_start, key_end, lsn } => {
            lemma_hex_seq_len(key_start as nat, 16);
            lemma_hex_seq_len(key_end as nat, 16);
            lemma_hex_seq_len(lsn as nat, 16);
            assert(s.len() == 51);
            assert(s.subrange(0, 16) =~= hex_seq(key_start as nat, 16));
            assert(s.subrange(17, 33) =~= hex_seq(key_end as nat, 16));
            assert(s.subrange(35, 51) =~= hex_seq(lsn as nat, 16));
            lemma_hex_seq_digits(key_start as nat, 16);
            lemma_hex_seq_digits(key_end as nat, 16);
            lemma_hex_seq_digits(lsn as nat, 16);
            lemma_hex_val_of_hex_seq(key_start as nat, 16);
            lemma_hex_val_of_hex_seq(key_end as nat, 16);
            lemma_hex_val_of_hex_seq(lsn as nat, 16);
            assert(s[16] == '-');
            assert(s[33] == '_');
            assert(s[34] == '_');
        },
        LayerName::Delta { key_start, key_end, lsn_start, lsn_end } => {
            lemma_hex_seq_len(key_start as nat, 16);
            lemma_hex_seq_len(key_end as nat, 16);
            lemma_hex_seq_len(lsn_start as nat, 16);
            lemma_hex_seq_len(lsn_end as nat, 16);
            assert(s.len() == 68);
            assert(s.subrange(0, 16) =~= hex_seq(key_start as nat, 16));
            assert(s.subrange(17, 33) =~= hex_seq(key_end as nat, 16));
            assert(s.subrange(35, 51) =~= hex_seq(lsn_start as nat, 16));
            assert(s.subrange(52, 68) =~= hex_seq(lsn_end as nat, 16));
            lemma_hex_seq_digits(key_start as nat, 16);
            lemma_hex_seq_digits(key_end as nat, 16);
            lemma_hex_seq_digits(lsn_start as nat, 16);
            lemma_hex_seq_digits(lsn_end as nat, 16);
            lemma_hex_val_of_hex_seq(key_start as nat, 16);
            lemma_hex_val_of_hex_seq(key_end as nat, 16);
            lemma_hex_val_of_hex_seq(lsn_start as nat, 16);
            lemma_hex_val_of_hex_seq(lsn_end as nat, 16);
            assert(s[16] == '-');
            assert(s[33] == '_');
            assert(s[34] == '_');
            assert(s[51] == '-');
        },
    }
}

#[derive(Clone, Copy, PartialEq, Eq, Structural, Debug)]
pub enum LayerNameParseError {
    MalformedLayerName,
    MalformedGenerationSuffix,
}

pub open spec fn parse_error_msg_seq(e: LayerNameParseError) -> Seq<char> {
    match e {
        LayerNameParseError::MalformedLayerName => "malformed layer name"@,
        LayerNameParseError::MalformedGenerationSuffix => "malformed generation suffix"@,
    }
}

impl LayerNameParseError {
    pub fn describe(&self) -> (r: &'static str)
        ensures
            r@ == parse_error_msg_seq(*self),
    {
        match self {
            LayerNameParseError::MalformedLayerName => "malformed layer name",
            LayerNameParseError::MalformedGenerationSuffix => "malformed generation suffix",
        }
    }
}

/// Splits a raw object name into a descriptor and a generation: a trailing
/// dash-separated segment of exactly eight characters is taken to be a
/// generation suffix, anything else is parsed as a bare descriptor. The
/// eight-character heuristic is the storage layout's own convention; a
/// descriptor whose tail happened to be eight characters long would misparse,
/// which the fixed-width descriptor grammar rules out.
pub open spec fn spec_parse_layer_object_name(s: Seq<char>) -> Result<
    (LayerName, Generation),
    LayerNameParseError,
> {
    let i = last_index_of(s, '-');
    if i >= 0 && s.len() - i - 1 == 8 {
        match spec_parse_layer_name(s.subrange(0, i)) {
            Some(n) => if is_hex_digits(s.subrange(i + 1, s.len() as int)) {
                Ok((n, Generation::Valid(hex_val_seq(s.subrange(i + 1, s.len() as int)) as u32)))
            } else {
                Err(LayerNameParseError::MalformedGenerationSuffix)
            },
            None => Err(LayerNameParseError::MalformedLayerName),
        }
    } else {
        match spec_parse_layer_name(s) {
            Some(n) => Ok((n, Generation::Absent)),
            None => Err(LayerNameParseError::MalformedLayerName),
        }
    }
}

pub fn parse_layer_object_name(name: &str) -> (r: Result<
    (LayerName, Generation),
    LayerNameParseError,
>)
    ensures
        r == spec_parse_layer_object_name(name@),
{
    let len = name.unicode_len();
    let fl = crate::strutil::find_last(name, '-');
    if let Some(i) = fl {
        proof {
            lemma_last_index_of_bounds(name@, '-');
        }
        if len - i - 1 == 8 {
            let prefix = name.substring_char(0, i);
            match parse_layer_name(prefix) {
                Some(n) => {
                    let g = parse_hex(name, i + 1, len);
                    match g {
                        Some(v) => {
                            proof {
                                lemma_pow16_8();
                            }
                            return Ok((n, Generation::Valid(v as u32)));
                        },
                        None => {
                            return Err(LayerNameParseError::MalformedGenerationSuffix);
                        },
                    }
                },
                None => {
                    return Err(LayerNameParseError::MalformedLayerName);
                },
            }
        }
    }
    match parse_layer_name(name) {
        Some(n) => Ok((n, Generation::Absent)),
        None => Err(LayerNameParseError::MalformedLayerName),
    }
}

/// Every character of a rendered hexadecimal field differs from the
/// separators, so the last dash of a rendered name sits where the grammar put
/// it.
proof fn lemma_hex_chars_not_separators(s: Seq<char>)
    requires
        is_hex_digits(s),
    ensures
        forall|k: int| 0 <= k < s.len() ==> s[k] != '-' && s[k] != '_' && s[k] != '/',
{
    assert forall|k: int| 0 <= k < s.len() implies s[k] != '-' && s[k] != '_' && s[k]
        != '/' by {
        assert(is_hex_char(s[k]));
    }
}

/// Rendering a descriptor-generation pair and parsing it back recovers the
/// pair; a pair without a generation renders with no suffix segment.
pub proof fn lemma_layer_object_name_roundtrip(n: LayerName, g: Generation)
    ensures
        spec_parse_layer_object_name(layer_key_seq(n, g)) == Ok::<
            (LayerName, Generation),
            LayerNameParseError,
        >((n, g)),
{
    let s = layer_key_seq(n, g);
    let base = layer_name_seq(n);
    lemma_layer_name_roundtrip(n);
    let baselen: int = match n {
        LayerName::Image { .. } => 51,
        LayerName::Delta { .. } => 68,
    };
    assert(base.len() == baselen) by {
        match n {
            LayerName::Image { key_start, key_end, lsn } => {
                lemma_hex_seq_len(key_start as nat, 16);
                lemma_hex_seq_len(key_end as nat, 16);
                lemma_hex_seq_len(lsn as nat, 16);
            },
            LayerName::Delta { key_start, key_end, lsn_start, lsn_end } => {
                lemma_hex_seq_len(key_start as nat, 16);
                lemma_hex_seq_len(key_end as nat, 16);
                lemma_hex_seq_len(lsn_start as nat, 16);
                lemma_hex_seq_len(lsn_end as nat, 16);
            },
        }
    }
    let dash: int = match n {
        LayerName::Image { .. } => 16,
        LayerName::Delta { .. } => 51,
    };
    assert(base[dash] == '-' && forall|k: int| dash < k < baselen ==> base[k] != '-') by {
        match n {
            LayerName::Image { key_start, key_end, lsn } => {
                lemma_hex_seq_len(key_start as nat, 16);
                lemma_hex_seq_len(key_end as nat, 16);
                lemma_hex_seq_len(lsn as nat, 16);
                lemma_hex_seq_digits(key_end as nat, 16);
                lemma_hex_seq_digits(lsn as nat, 16);
                lemma_hex_chars_not_separators(hex_seq(key_end as nat, 16));
                lemma_hex_chars_not_separators(hex_seq(lsn as nat, 16));
                assert forall|k: int| dash < k < baselen implies base[k] != '-' by {
                    if 17 <= k < 33 {
                        assert(base[k] == hex_seq(key_end as nat, 16)[k - 17]);
                    } else if 35 <= k < 51 {
                        assert(base[k] == hex_seq(lsn as nat, 16)[k - 35]);
                    }
                }
            },
            LayerName::Delta { key_start, key_end, lsn_start, lsn_end } => {
                lemma_hex_seq_len(key_start as nat, 16);
                lemma_hex_seq_len(key_end as nat, 16);
                lemma_hex_seq_len(lsn_start as nat, 16);
                lemma_hex_seq_len(lsn_end as nat, 16);
                lemma_hex_seq_digits(lsn_end as nat, 16);
                lemma_hex_chars_not_separators(hex_seq(lsn_end as nat, 16));
                assert forall|k: int| dash < k < baselen implies base[k] != '-' by {
                    assert(base[k] == hex_seq(lsn_end as nat, 16)[k - 52]);
                }
            },
        }
    }
    match g {
        Generation::Absent => {
            assert(s =~= base);
            lemma_last_index_of_from_facts(s, '-', dash);
            assert(s.len() - dash - 1 != 8);
        },
        Generation::Valid(v) => {
            lemma_hex_seq_len(v as nat, 8);
            assert(s.len() == baselen + 9);
            assert(s[baselen] == '-');
            assert(forall|k: int| baselen < k < s.len() ==> s[k] != '-') by {
                lemma_hex_seq_digits(v as nat, 8);
                lemma_hex_chars_not_separators(hex_seq(v as nat, 8));
                assert forall|k: int| baselen < k < s.len() implies s[k] != '-' by {
                    assert(s[k] == hex_seq(v as nat, 8)[k - baselen - 1]);
                }
            }
            lemma_last_index_of_from_facts(s, '-', baselen);
            assert(s.subrange(0, baselen) =~= base);
            assert(s.subrange(baselen + 1, s.len() as int) =~= hex_seq(v as nat, 8));
            lemma_hex_seq_digits(v as nat, 8);
            lemma_pow16_8();
            lemma_hex_val_of_hex_seq(v as nat, 8);
        },
    }
}

/// The storage path of a layer object:
/// `tenants/<tenant><shard>/timelines/<timeline>/<layer><generation>`.
pub open spec fn remote_layer_path_seq(
    tenant: TenantId,
    shard: ShardIndex,
    timeline: TimelineId,
    n: LayerName,
    g: Generation,
) -> Seq<char> {
    "tenants/"@ + id_seq(tenant.0) + shard_suffix_seq(shard) + "/timelines/"@ + id_seq(timeline.0)
        + "/"@ + layer_key_seq(n, g)
}

pub fn remote_layer_path(
    tenant: &TenantId,
    shard: &ShardIndex,
    timeline: &TimelineId,
    n: &LayerName,
    g: &Generation,
) -> (r: String)
    ensures
        r@ == remote_layer_path_seq(*tenant, *shard, *timeline, *n, *g),
{
    let mut out = String::new();
    out.append("tenants/");
    append_id(&mut out, tenant.0);
    append_shard_suffix(&mut out, *shard);
    out.append("/timelines/");
    append_id(&mut out, timeline.0);
    out.append("/");
    append_layer_name(&mut out, n);
    append_gen_suffix(&mut out, g);
    proof {
        assert(out@ =~= remote_layer_path_seq(*tenant, *shard, *timeline, *n, *g));
    }
    out
}

} // verus!
