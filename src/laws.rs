//! Properties that relate the extractor, the scalar readers and the renderer.

use vstd::prelude::*;
use crate::extract::{
    lookup, model_of, zone_detail, zone_record, zone_list, rule_list, text_list, int_list,
    int_leaf, text_leaf, opt_int_list, opt_int, is_zone_key, I32_MIN, I32_MAX, I64_MIN, I64_MAX,
    U32_MAX,
};
use crate::render::defs_of;
use crate::scalar::{
    int_of, digits_value, digit_value, all_digits, is_digit, hex_decode, hex_value,
    is_hex,
};
use crate::text::{digit_char, nat_text, int_text};
use crate::tree::{Node, Entry};
use crate::zone_info::{ZoneV, ZoneRuleV, ZoneInfo, ZoneInfoV};

verus! {

/// Lower-case hex digit of a nibble.
pub open spec fn hex_char(d: int) -> char {
    if d < 10 {
        digit_char(d)
    } else if d == 10 {
        'a'
    } else if d == 11 {
        'b'
    } else if d == 12 {
        'c'
    } else if d == 13 {
        'd'
    } else if d == 14 {
        'e'
    } else {
        'f'
    }
}

/// Two lower-case hex digits per byte, the high nibble first.
pub open spec fn hex_text(b: Seq<int>) -> Seq<char> {
    Seq::new(
        2 * b.len(),
        |i: int|
            if i % 2 == 0 {
                hex_char(b[i / 2] / 16)
            } else {
                hex_char(b[i / 2] % 16)
            },
    )
}

/// `n` is an integer leaf spelling `v` in decimal.
pub open spec fn int_node_of(n: Node, v: int) -> bool {
    match n {
        Node::Integer(t) => t@ == int_text(v),
        _ => false,
    }
}

/// `n` is an array of integer leaves spelling `s`.
pub open spec fn int_array_of(n: Node, s: Seq<int>) -> bool {
    match n {
        Node::Array(v) => v@.len() == s.len() && forall|i: int|
            0 <= i < s.len() ==> int_node_of(#[trigger] v@[i], s[i]),
        _ => false,
    }
}

pub open spec fn text_node_of(n: Node, s: Seq<char>) -> bool {
    match n {
        Node::Text(t) => t@ == s,
        _ => false,
    }
}

/// `n` is an array of quoted leaves holding `s`.
pub open spec fn text_array_of(n: Node, s: Seq<Seq<char>>) -> bool {
    match n {
        Node::Array(v) => v@.len() == s.len() && forall|i: int|
            0 <= i < s.len() ==> text_node_of(#[trigger] v@[i], s[i]),
        _ => false,
    }
}

/// `n` writes zone `z`: an alias as an integer, a detail record as a table
/// holding all nine keys.
pub open spec fn zone_node_of(n: Node, z: ZoneV) -> bool {
    match z {
        ZoneV::AliasTo(t) => int_node_of(n, t),
        ZoneV::Detail {
            trans_pre32,
            trans,
            trans_post32,
            type_offsets,
            type_map,
            final_rule_id,
            final_raw,
            final_year,
            aliases,
        } => match n {
            Node::Table(e) => {
                &&& e@.len() == 9
                &&& e@[0].key@ == "transPre32"@ && int_array_of(e@[0].value, trans_pre32)
                &&& e@[1].key@ == "trans"@ && int_array_of(e@[1].value, trans)
                &&& e@[2].key@ == "transPost32"@ && int_array_of(e@[2].value, trans_post32)
                &&& e@[3].key@ == "typeOffsets"@ && int_array_of(e@[3].value, type_offsets)
                &&& e@[4].key@ == "typeMap"@ && text_node_of(e@[4].value, hex_text(type_map))
                &&& e@[5].key@ == "finalRule"@ && text_node_of(e@[5].value, final_rule_id)
                &&& e@[6].key@ == "finalRaw"@ && int_node_of(e@[6].value, final_raw)
                &&& e@[7].key@ == "finalYear"@ && int_node_of(e@[7].value, final_year)
                &&& e@[8].key@ == "links"@ && int_array_of(e@[8].value, aliases)
            },
            _ => false,
        },
    }
}

/// `root` writes model `m`: a table with `Zones`, `Names`, `Rules` and
/// `Regions`, every field written out.
pub open spec fn bundle_of(root: Node, m: ZoneInfoV) -> bool {
    match root {
        Node::Table(e) => {
            &&& e@.len() == 4
            &&& e@[0].key@ == "Zones"@
            &&& match e@[0].value {
                Node::Array(v) => v@.len() == m.zones.len() && forall|i: int|
                    0 <= i < m.zones.len() ==> zone_node_of(#[trigger] v@[i], m.zones[i]),
                _ => false,
            }
            &&& e@[1].key@ == "Names"@ && text_array_of(e@[1].value, m.names)
            &&& e@[2].key@ == "Rules"@
            &&& match e@[2].value {
                Node::Table(r) => r@.len() == m.rules.len() && forall|i: int|
                    0 <= i < m.rules.len() ==> (#[trigger] r@[i]).key@ == m.rules[i].id
                        && int_array_of(r@[i].value, m.rules[i].values),
                _ => false,
            }
            &&& e@[3].key@ == "Regions"@ && text_array_of(e@[3].value, m.regions)
        },
        _ => false,
    }
}

pub open spec fn all_within(s: Seq<int>, lo: int, hi: int) -> bool {
    forall|i: int| 0 <= i < s.len() ==> lo <= #[trigger] s[i] <= hi
}

/// The values of a zone fit the widths of its fields.
pub open spec fn zone_in_range(z: ZoneV) -> bool {
    match z {
        ZoneV::AliasTo(t) => 0 <= t <= U32_MAX,
        ZoneV::Detail {
            trans_pre32,
            trans,
            trans_post32,
            type_offsets,
            type_map,
            final_raw,
            final_year,
            aliases,
            ..
        } => {
            &&& all_within(trans_pre32, I32_MIN as int, I32_MAX as int)
            &&& all_within(trans, I32_MIN as int, I32_MAX as int)
            &&& all_within(trans_post32, I32_MIN as int, I32_MAX as int)
            &&& all_within(type_offsets, I64_MIN as int, I64_MAX as int)
            &&& all_within(type_map, 0, 255)
            &&& I32_MIN <= final_raw <= I32_MAX
            &&& I32_MIN <= final_year <= I32_MAX
            &&& all_within(aliases, 0, U32_MAX as int)
        },
    }
}

/// A model that a [`ZoneInfo`] can hold, with the version left empty.
pub open spec fn model_in_range(m: ZoneInfoV) -> bool {
    &&& m.version == Seq::<char>::empty()
    &&& forall|i: int| 0 <= i < m.zones.len() ==> zone_in_range(#[trigger] m.zones[i])
    &&& forall|i: int|
        0 <= i < m.rules.len() ==> all_within(
            (#[trigger] m.rules[i]).values,
            I32_MIN as int,
            I32_MAX as int,
        )
}

proof fn lemma_digit_char(d: int)
    requires
        0 <= d < 10,
    ensures
        is_digit(digit_char(d)),
        digit_value(digit_char(d)) == d,
{
}

proof fn lemma_nat_text(n: nat)
    ensures
        all_digits(nat_text(n)),
        digits_value(nat_text(n)) == n,
    decreases n,
{
    if n < 10 {
        lemma_digit_char(n as int);
        assert(nat_text(n).drop_last() =~= Seq::<char>::empty());
        assert(digits_value(Seq::<char>::empty()) == 0);
    } else {
        lemma_nat_text(n / 10);
        lemma_digit_char((n % 10) as int);
        assert(nat_text(n).drop_last() =~= nat_text(n / 10));
        assert(nat_text(n).last() == digit_char((n % 10) as int));
        assert((n / 10) * 10 + n % 10 == n);
    }
}

/// Reading back the decimal text of an integer gives that integer.
pub proof fn lemma_int_text_round_trip(v: int)
    ensures
        int_of(int_text(v)) == Some(v),
{
    if v < 0 {
        lemma_nat_text((-v) as nat);
        assert(int_text(v).drop_first() =~= nat_text((-v) as nat));
    } else {
        lemma_nat_text(v as nat);
        assert(is_digit(nat_text(v as nat)[0]));
    }
}

proof fn lemma_int_array(n: Node, s: Seq<int>, lo: int, hi: int)
    requires
        int_array_of(n, s),
        all_within(s, lo, hi),
    ensures
        int_list(n, lo, hi) == Some(s),
{
    if let Node::Array(v) = n {
        assert forall|i: int| 0 <= i < v@.len() implies (#[trigger] int_leaf(v@[i], lo, hi))
            == Some(s[i]) by {
            assert(int_node_of(v@[i], s[i]));
            lemma_int_text_round_trip(s[i]);
        }
        assert(Seq::new(v@.len(), |i: int| int_leaf(v@[i], lo, hi)->0) =~= s);
    }
}

proof fn lemma_text_array(n: Node, s: Seq<Seq<char>>)
    requires
        text_array_of(n, s),
    ensures
        text_list(n) == Some(s),
{
    if let Node::Array(v) = n {
        assert forall|i: int| 0 <= i < v@.len() implies (#[trigger] text_leaf(v@[i])) == Some(
            s[i],
        ) by {
            assert(text_node_of(v@[i], s[i]));
        }
        assert(Seq::new(v@.len(), |i: int| text_leaf(v@[i])->0) =~= s);
    }
}

proof fn lemma_hex_char(d: int)
    requires
        0 <= d < 16,
    ensures
        hex_value(hex_char(d)) == d,
{
}

/// Decoding the hex text of a byte sequence gives the bytes back.
pub proof fn lemma_hex_round_trip(b: Seq<int>)
    requires
        all_within(b, 0, 255),
    ensures
        hex_decode(hex_text(b)) == Some(b),
{
    let s = hex_text(b);
    assert forall|i: int| 0 <= i < s.len() implies is_hex(#[trigger] s[i]) by {
        lemma_hex_char(b[i / 2] / 16);
        lemma_hex_char(b[i / 2] % 16);
    }
    assert forall|k: int| 0 <= k < b.len() implies hex_value(s[2 * k]) * 16 + hex_value(
        s[2 * k + 1],
    ) == b[k] by {
        assert((2 * k) / 2 == k && (2 * k) % 2 == 0 && (2 * k + 1) / 2 == k && (2 * k + 1) % 2
            == 1) by (nonlinear_arith);
        lemma_hex_char(b[k] / 16);
        lemma_hex_char(b[k] % 16);
    }
    assert(Seq::new(
        (s.len() / 2) as nat,
        |k: int| hex_value(s[2 * k]) * 16 + hex_value(s[2 * k + 1]),
    ) =~= b);
}

/// Two keys differ in length, or (when `k >= 0`) at position `k`.
proof fn lemma_keys_differ(a: Seq<char>, b: Seq<char>, k: int)
    requires
        k < 0 ==> a.len() != b.len(),
        k >= 0 ==> k < a.len() && k < b.len() && a[k] != b[k],
    ensures
        a != b,
{
}

/// The last entry under `key` is the one at `i` when no later entry has it.
proof fn lemma_lookup_at(e: Seq<Entry>, key: Seq<char>, i: int)
    requires
        0 <= i < e.len(),
        e[i].key@ == key,
        forall|j: int| i < j < e.len() ==> (#[trigger] e[j]).key@ != key,
    ensures
        lookup(e, key) == Some(e[i].value),
    decreases e.len(),
{
    if i < e.len() - 1 {
        lemma_lookup_at(e.drop_last(), key, i);
    }
}

proof fn lemma_zone_round_trip(n: Node, z: ZoneV)
    requires
        zone_node_of(n, z),
        zone_in_range(z),
    ensures
        zone_record(n) == Some(z),
{
    match z {
        ZoneV::AliasTo(t) => {
            lemma_int_text_round_trip(t);
        },
        ZoneV::Detail {
            trans_pre32,
            trans,
            trans_post32,
            type_offsets,
            type_map,
            final_rule_id,
            final_raw,
            final_year,
            aliases,
        } => {
            if let Node::Table(t) = n {
                let e = t@;
                reveal_strlit("transPre32");
                reveal_strlit("trans");
                reveal_strlit("transPost32");
                reveal_strlit("typeOffsets");
                reveal_strlit("typeMap");
                reveal_strlit("finalRule");
                reveal_strlit("finalRaw");
                reveal_strlit("finalYear");
                reveal_strlit("links");
                lemma_keys_differ("transPre32"@, "trans"@, -1);
                lemma_keys_differ("transPre32"@, "transPost32"@, -1);
                lemma_keys_differ("transPre32"@, "typeOffsets"@, -1);
                lemma_keys_differ("transPre32"@, "typeMap"@, -1);
                lemma_keys_differ("transPre32"@, "finalRule"@, -1);
                lemma_keys_differ("transPre32"@, "finalRaw"@, -1);
                lemma_keys_differ("transPre32"@, "finalYear"@, -1);
                lemma_keys_differ("transPre32"@, "links"@, -1);
                lemma_keys_differ("trans"@, "transPost32"@, -1);
                lemma_keys_differ("trans"@, "typeOffsets"@, -1);
                lemma_keys_differ("trans"@, "typeMap"@, -1);
                lemma_keys_differ("trans"@, "finalRule"@, -1);
                lemma_keys_differ("trans"@, "finalRaw"@, -1);
                lemma_keys_differ("trans"@, "finalYear"@, -1);
                lemma_keys_differ("trans"@, "links"@, 0);
                lemma_keys_differ("transPost32"@, "typeOffsets"@, 1);
                lemma_keys_differ("transPost32"@, "typeMap"@, -1);
                lemma_keys_differ("transPost32"@, "finalRule"@, -1);
                lemma_keys_differ("transPost32"@, "finalRaw"@, -1);
                lemma_keys_differ("transPost32"@, "finalYear"@, -1);
                lemma_keys_differ("transPost32"@, "links"@, -1);
                lemma_keys_differ("typeOffsets"@, "typeMap"@, -1);
                lemma_keys_differ("typeOffsets"@, "finalRule"@, -1);
                lemma_keys_differ("typeOffsets"@, "finalRaw"@, -1);
                lemma_keys_differ("typeOffsets"@, "finalYear"@, -1);
                lemma_keys_differ("typeOffsets"@, "links"@, -1);
                lemma_keys_differ("typeMap"@, "finalRule"@, -1);
                lemma_keys_differ("typeMap"@, "finalRaw"@, -1);
                lemma_keys_differ("typeMap"@, "finalYear"@, -1);
                lemma_keys_differ("typeMap"@, "links"@, -1);
                lemma_keys_differ("finalRule"@, "finalRaw"@, -1);
                lemma_keys_differ("finalRule"@, "finalYear"@, 5);
                lemma_keys_differ("finalRule"@, "links"@, -1);
                lemma_keys_differ("finalRaw"@, "finalYear"@, -1);
                lemma_keys_differ("finalRaw"@, "links"@, -1);
                lemma_keys_differ("finalYear"@, "links"@, -1);
                assert forall|j: int| 0 <= j < 9 implies ((#[trigger] e[j]).key@ == "transPre32"@ <==> j == 0) && (e[j].key@ == "trans"@ <==> j == 1) && (e[j].key@ == "transPost32"@ <==> j == 2) && (e[j].key@ == "typeOffsets"@ <==> j == 3) && (e[j].key@ == "typeMap"@ <==> j == 4) && (e[j].key@ == "finalRule"@ <==> j == 5) && (e[j].key@ == "finalRaw"@ <==> j == 6) && (e[j].key@ == "finalYear"@ <==> j == 7) && (e[j].key@ == "links"@ <==> j == 8) by {
                    if j == 0 {} else if j == 1 {} else if j == 2 {} else if j == 3 {} else if j == 4 {} else if j == 5 {} else if j == 6 {} else if j == 7 {} else {}
                }
                lemma_lookup_at(e, "transPre32"@, 0);
                lemma_lookup_at(e, "trans"@, 1);
                lemma_lookup_at(e, "transPost32"@, 2);
                lemma_lookup_at(e, "typeOffsets"@, 3);
                lemma_lookup_at(e, "typeMap"@, 4);
                lemma_lookup_at(e, "finalRule"@, 5);
                lemma_lookup_at(e, "finalRaw"@, 6);
                lemma_lookup_at(e, "finalYear"@, 7);
                lemma_lookup_at(e, "links"@, 8);
                lemma_int_array(e[0].value, trans_pre32, I32_MIN as int, I32_MAX as int);
                lemma_int_array(e[1].value, trans, I32_MIN as int, I32_MAX as int);
                lemma_int_array(e[2].value, trans_post32, I32_MIN as int, I32_MAX as int);
                lemma_int_array(e[3].value, type_offsets, I64_MIN as int, I64_MAX as int);
                lemma_hex_round_trip(type_map);
                lemma_int_text_round_trip(final_raw);
                lemma_int_text_round_trip(final_year);
                lemma_int_array(e[8].value, aliases, 0, U32_MAX as int);
                assert forall|i: int| 0 <= i < e.len() implies is_zone_key(#[trigger] e[i].key@) by {
                }
                assert(zone_detail(e) == Some(z));
            }
        },
    }
}

/// Round trip: extracting a tree that writes out a model in range gives
/// back that model, field for field.
pub proof fn lemma_extract_round_trip(root: Node, m: ZoneInfoV)
    requires
        bundle_of(root, m),
        model_in_range(m),
    ensures
        model_of(root) == Some(m),
{
    if let Node::Table(t) = root {
        let e = t@;
        reveal_strlit("Zones");
        reveal_strlit("Names");
        reveal_strlit("Rules");
        reveal_strlit("Regions");
        lemma_keys_differ("Zones"@, "Names"@, 0);
        lemma_keys_differ("Zones"@, "Rules"@, 0);
        lemma_keys_differ("Zones"@, "Regions"@, -1);
        lemma_keys_differ("Names"@, "Rules"@, 0);
        lemma_keys_differ("Names"@, "Regions"@, -1);
        lemma_keys_differ("Rules"@, "Regions"@, -1);
        assert forall|j: int| 0 <= j < 4 implies ((#[trigger] e[j]).key@ == "Zones"@ <==> j == 0) && (e[j].key@ == "Names"@ <==> j == 1) && (e[j].key@ == "Rules"@ <==> j == 2) && (e[j].key@ == "Regions"@ <==> j == 3) by {
            if j == 0 {} else if j == 1 {} else if j == 2 {} else {}
        }
        lemma_lookup_at(e, "Zones"@, 0);
        lemma_lookup_at(e, "Names"@, 1);
        lemma_lookup_at(e, "Rules"@, 2);
        lemma_lookup_at(e, "Regions"@, 3);
        lemma_text_array(e[1].value, m.names);
        lemma_text_array(e[3].value, m.regions);
        if let Node::Array(v) = e[0].value {
            assert forall|i: int| 0 <= i < v@.len() implies (#[trigger] zone_record(v@[i]))
                == Some(m.zones[i]) by {
                lemma_zone_round_trip(v@[i], m.zones[i]);
            }
            assert(Seq::new(v@.len(), |i: int| zone_record(v@[i])->0) =~= m.zones);
            assert(zone_list(e[0].value) == Some(m.zones));
        }
        if let Node::Table(r) = e[2].value {
            assert forall|i: int| 0 <= i < r@.len() implies (#[trigger] int_list(
                r@[i].value,
                I32_MIN as int,
                I32_MAX as int,
            )) == Some(m.rules[i].values) by {
                lemma_int_array(r@[i].value, m.rules[i].values, I32_MIN as int, I32_MAX as int);
            }
            assert(Seq::new(
                r@.len(),
                |i: int|
                    ZoneRuleV {
                        id: r@[i].key@,
                        values: int_list(r@[i].value, I32_MIN as int, I32_MAX as int)->0,
                    },
            ) =~= m.rules);
            assert(rule_list(e[2].value) == Some(m.rules));
        }
    }
}

/// Rendering is a function of the model alone: rendering the same model
/// twice gives the same five tables.
pub proof fn lemma_render_deterministic(a: ZoneInfoV, b: ZoneInfoV)
    requires
        a == b,
    ensures
        defs_of(a) == defs_of(b),
{
}

/// An even-length string of hex digits decodes to half as many bytes; a
/// string of odd length does not decode.
pub proof fn lemma_hex_length(s: Seq<char>)
    ensures
        s.len() % 2 == 0 && (forall|i: int| 0 <= i < s.len() ==> is_hex(#[trigger] s[i]))
            ==> hex_decode(s) is Some && hex_decode(s)->0.len() == s.len() / 2,
        s.len() % 2 == 1 ==> hex_decode(s) is None,
{
}

/// A `typeMap` of odd length makes the zone table fail.
pub proof fn lemma_odd_type_map_rejected(e: Seq<Entry>, n: Node)
    requires
        lookup(e, "typeMap"@) == Some(n),
        text_leaf(n) is Some,
        text_leaf(n)->0.len() % 2 == 1,
    ensures
        zone_detail(e) is None,
{
}

/// A zone table without `links` has no aliases, and one without `finalYear`
/// has final year 0; neither absence is an error.
pub proof fn lemma_absent_defaults(e: Seq<Entry>)
    ensures
        lookup(e, "links"@) is None ==> opt_int_list(lookup(e, "links"@), 0, U32_MAX as int)
            == Some(Seq::<int>::empty()),
        lookup(e, "finalYear"@) is None ==> opt_int(
            lookup(e, "finalYear"@),
            I32_MIN as int,
            I32_MAX as int,
        ) == Some(0int),
        lookup(e, "links"@) is None ==> match zone_detail(e) {
            Some(ZoneV::Detail { aliases, .. }) => aliases == Seq::<int>::empty(),
            _ => true,
        },
        lookup(e, "finalYear"@) is None ==> match zone_detail(e) {
            Some(ZoneV::Detail { final_year, .. }) => final_year == 0,
            _ => true,
        },
{
}

/// A zone table that holds a key outside the nine known ones is rejected,
/// whatever else it holds.
pub proof fn lemma_unknown_key_rejected(e: Seq<Entry>, i: int)
    requires
        0 <= i < e.len(),
        !is_zone_key(e[i].key@),
    ensures
        zone_detail(e) is None,
{
}

} // verus!
