//! Closed-schema walk from a parse tree to a [`ZoneInfo`].
//!
//! Tables are read as mappings in which the last occurrence of a key wins. A
//! scalar may stand bare or wrapped in a one-element `{ ... }`. Empty braces
//! count both as an empty array and as an empty table.

use vstd::prelude::*;
use vstd::string::*;
use crate::scalar::{int_within, hex_decode, parse_int, decode_hex};
use crate::text::{push_char, push_nat};
use crate::tree::{Node, Entry, RbError};
use crate::zone_info::{
    Zone, ZoneV, ZoneRule, ZoneRuleV, ZoneInfo, ZoneInfoV, ints_i32, ints_i64, ints_u8, ints_u32,
    texts,
};

verus! {

pub const I32_MIN: i64 = -0x8000_0000;

pub const I32_MAX: i64 = 0x7fff_ffff;

pub const I64_MIN: i64 = -0x8000_0000_0000_0000;

pub const I64_MAX: i64 = 0x7fff_ffff_ffff_ffff;

pub const U32_MAX: i64 = 0xffff_ffff;

/// The value of the last entry named `key`.
pub open spec fn lookup(entries: Seq<Entry>, key: Seq<char>) -> Option<Node>
    decreases entries.len(),
{
    if entries.len() == 0 {
        None
    } else if entries.last().key@ == key {
        Some(entries.last().value)
    } else {
        lookup(entries.drop_last(), key)
    }
}

/// The node itself, or the only element of a one-element array.
pub open spec fn scalar_of(n: Node) -> Node {
    match n {
        Node::Array(v) => if v@.len() == 1 {
            v@[0]
        } else {
            n
        },
        _ => n,
    }
}

/// Elements of an array; empty braces give none.
pub open spec fn elements(n: Node) -> Option<Seq<Node>> {
    match n {
        Node::Array(v) => Some(v@),
        Node::Table(e) => if e@.len() == 0 {
            Some(Seq::empty())
        } else {
            None
        },
        _ => None,
    }
}

/// Entries of a table; empty braces give none.
pub open spec fn entries_of(n: Node) -> Option<Seq<Entry>> {
    match n {
        Node::Table(e) => Some(e@),
        Node::Array(v) => if v@.len() == 0 {
            Some(Seq::empty())
        } else {
            None
        },
        _ => None,
    }
}

/// An integer in `lo..=hi`, written bare or quoted.
pub open spec fn int_leaf(n: Node, lo: int, hi: int) -> Option<int> {
    match scalar_of(n) {
        Node::Integer(t) => int_within(t@, lo, hi),
        Node::Text(t) => int_within(t@, lo, hi),
        _ => None,
    }
}

/// The contents of a quoted leaf.
pub open spec fn text_leaf(n: Node) -> Option<Seq<char>> {
    match scalar_of(n) {
        Node::Text(t) => Some(t@),
        _ => None,
    }
}

/// An array whose every element is an integer in `lo..=hi`.
pub open spec fn int_list(n: Node, lo: int, hi: int) -> Option<Seq<int>> {
    match elements(n) {
        Some(v) => if forall|i: int| 0 <= i < v.len() ==> (#[trigger] int_leaf(v[i], lo, hi)) is Some {
            Some(Seq::new(v.len(), |i: int| int_leaf(v[i], lo, hi)->0))
        } else {
            None
        },
        None => None,
    }
}

/// An array whose every element is quoted text.
pub open spec fn text_list(n: Node) -> Option<Seq<Seq<char>>> {
    match elements(n) {
        Some(v) => if forall|i: int| 0 <= i < v.len() ==> (#[trigger] text_leaf(v[i])) is Some {
            Some(Seq::new(v.len(), |i: int| text_leaf(v[i])->0))
        } else {
            None
        },
        None => None,
    }
}

pub open spec fn opt_int_list(o: Option<Node>, lo: int, hi: int) -> Option<Seq<int>> {
    match o {
        None => Some(Seq::empty()),
        Some(n) => int_list(n, lo, hi),
    }
}

pub open spec fn opt_int(o: Option<Node>, lo: int, hi: int) -> Option<int> {
    match o {
        None => Some(0),
        Some(n) => int_leaf(n, lo, hi),
    }
}

pub open spec fn opt_text(o: Option<Node>) -> Option<Seq<char>> {
    match o {
        None => Some(Seq::empty()),
        Some(n) => text_leaf(n),
    }
}

pub open spec fn opt_bytes(o: Option<Node>) -> Option<Seq<int>> {
    match o {
        None => Some(Seq::empty()),
        Some(n) => match text_leaf(n) {
            Some(t) => hex_decode(t),
            None => None,
        },
    }
}

/// The nine keys that a zone-detail table may hold.
pub open spec fn is_zone_key(k: Seq<char>) -> bool {
    ||| k == "transPre32"@
    ||| k == "trans"@
    ||| k == "transPost32"@
    ||| k == "typeOffsets"@
    ||| k == "typeMap"@
    ||| k == "finalRule"@
    ||| k == "finalRaw"@
    ||| k == "finalYear"@
    ||| k == "links"@
}

/// A zone-detail table: only the nine keys, each absent one at its default.
pub open spec fn zone_detail(e: Seq<Entry>) -> Option<ZoneV> {
    let trans_pre32 = opt_int_list(lookup(e, "transPre32"@), I32_MIN as int, I32_MAX as int);
    let trans = opt_int_list(lookup(e, "trans"@), I32_MIN as int, I32_MAX as int);
    let trans_post32 = opt_int_list(lookup(e, "transPost32"@), I32_MIN as int, I32_MAX as int);
    let type_offsets = opt_int_list(lookup(e, "typeOffsets"@), I64_MIN as int, I64_MAX as int);
    let type_map = opt_bytes(lookup(e, "typeMap"@));
    let final_rule_id = opt_text(lookup(e, "finalRule"@));
    let final_raw = opt_int(lookup(e, "finalRaw"@), I32_MIN as int, I32_MAX as int);
    let final_year = opt_int(lookup(e, "finalYear"@), I32_MIN as int, I32_MAX as int);
    let aliases = opt_int_list(lookup(e, "links"@), 0, U32_MAX as int);
    if (forall|i: int| 0 <= i < e.len() ==> is_zone_key(#[trigger] e[i].key@)) && trans_pre32
        is Some && trans is Some && trans_post32 is Some && type_offsets is Some && type_map is Some
        && final_rule_id is Some && final_raw is Some && final_year is Some && aliases is Some {
        Some(
            ZoneV::Detail {
                trans_pre32: trans_pre32->0,
                trans: trans->0,
                trans_post32: trans_post32->0,
                type_offsets: type_offsets->0,
                type_map: type_map->0,
                final_rule_id: final_rule_id->0,
                final_raw: final_raw->0,
                final_year: final_year->0,
                aliases: aliases->0,
            },
        )
    } else {
        None
    }
}

/// One element of `Zones`: an integer is an alias, a table a detail record.
pub open spec fn zone_record(n: Node) -> Option<ZoneV> {
    match scalar_of(n) {
        Node::Integer(t) => match int_within(t@, 0, U32_MAX as int) {
            Some(v) => Some(ZoneV::AliasTo(v)),
            None => None,
        },
        _ => match entries_of(scalar_of(n)) {
            Some(e) => zone_detail(e),
            None => None,
        },
    }
}

pub open spec fn zone_list(n: Node) -> Option<Seq<ZoneV>> {
    match elements(n) {
        Some(v) => if forall|i: int| 0 <= i < v.len() ==> (#[trigger] zone_record(v[i])) is Some {
            Some(Seq::new(v.len(), |i: int| zone_record(v[i])->0))
        } else {
            None
        },
        None => None,
    }
}

/// One rule per entry of the `Rules` table, in order, repeated ids kept.
pub open spec fn rule_list(n: Node) -> Option<Seq<ZoneRuleV>> {
    match entries_of(n) {
        Some(e) => if forall|i: int|
            0 <= i < e.len() ==> (#[trigger] int_list(e[i].value, I32_MIN as int, I32_MAX as int))
                is Some {
            Some(
                Seq::new(
                    e.len(),
                    |i: int|
                        ZoneRuleV {
                            id: e[i].key@,
                            values: int_list(e[i].value, I32_MIN as int, I32_MAX as int)->0,
                        },
                ),
            )
        } else {
            None
        },
        None => None,
    }
}

pub open spec fn opt_list<A>(o: Option<Node>, f: spec_fn(Node) -> Option<Seq<A>>) -> Option<
    Seq<A>,
> {
    match o {
        None => Some(Seq::empty()),
        Some(n) => f(n),
    }
}

/// The model that a parse tree describes: the root must be a table, its four
/// known keys are read when present, and any other key is passed over.
pub open spec fn model_of(root: Node) -> Option<ZoneInfoV> {
    match entries_of(root) {
        Some(e) => {
            let zones = opt_list(lookup(e, "Zones"@), |n: Node| zone_list(n));
            let names = opt_list(lookup(e, "Names"@), |n: Node| text_list(n));
            let rules = opt_list(lookup(e, "Rules"@), |n: Node| rule_list(n));
            let regions = opt_list(lookup(e, "Regions"@), |n: Node| text_list(n));
            if zones is Some && names is Some && rules is Some && regions is Some {
                Some(
                    ZoneInfoV {
                        version: Seq::empty(),
                        zones: zones->0,
                        names: names->0,
                        rules: rules->0,
                        regions: regions->0,
                    },
                )
            } else {
                None
            }
        },
        None => None,
    }
}

/// Whether `k` spells `lit`.
pub fn key_is(k: &Vec<char>, lit: &str) -> (r: bool)
    ensures
        r == (k@ == lit@),
{
    let n = lit.unicode_len();
    if k.len() != n {
        return false;
    }
    let mut i: usize = 0;
    while i < n
        invariant
            n == lit@.len(),
            n == k@.len(),
            i <= n,
            forall|j: int| 0 <= j < i ==> k@[j] == lit@[j],
        decreases n - i,
    {
        if k[i] != lit.get_char(i) {
            return false;
        }
        i = i + 1;
    }
    assert(k@ =~= lit@);
    true
}

fn find<'a>(entries: &'a Vec<Entry>, key: &str) -> (r: Option<&'a Node>)
    ensures
        match r {
            Some(n) => lookup(entries@, key@) == Some(*n),
            None => lookup(entries@, key@) is None,
        },
{
    let mut i: usize = entries.len();
    assert(entries@.subrange(0, i as int) =~= entries@);
    while i > 0
        invariant
            i <= entries.len(),
            lookup(entries@, key@) == lookup(entries@.subrange(0, i as int), key@),
        decreases i,
    {
        assert(entries@.subrange(0, i as int).drop_last() =~= entries@.subrange(0, i - 1));
        if key_is(&entries[i - 1].key, key) {
            return Some(&entries[i - 1].value);
        }
        i = i - 1;
    }
    None
}

fn string_of(t: &Vec<char>) -> (r: String)
    ensures
        r@ == t@,
{
    let mut s = String::new();
    let mut i: usize = 0;
    while i < t.len()
        invariant
            i <= t.len(),
            s@ == t@.subrange(0, i as int),
        decreases t.len() - i,
    {
        push_char(&mut s, t[i]);
        i = i + 1;
        assert(s@ =~= t@.subrange(0, i as int));
    }
    assert(t@.subrange(0, t.len() as int) =~= t@);
    s
}

fn scalar_node(n: &Node) -> (r: &Node)
    ensures
        *r == scalar_of(*n),
{
    match n {
        Node::Array(v) => if v.len() == 1 {
            &v[0]
        } else {
            n
        },
        _ => n,
    }
}

/// `{}`: both an empty array and an empty table.
pub open spec fn is_empty_braces(n: Node) -> bool {
    match n {
        Node::Array(v) => v@.len() == 0,
        Node::Table(e) => e@.len() == 0,
        _ => false,
    }
}

fn empty_braces(n: &Node) -> (r: bool)
    ensures
        r == is_empty_braces(*n),
{
    match n {
        Node::Array(v) => v.len() == 0,
        Node::Table(e) => e.len() == 0,
        _ => false,
    }
}

fn node_elements(n: &Node) -> (r: Option<&Vec<Node>>)
    ensures
        match r {
            Some(v) => elements(*n) == Some(v@),
            None => elements(*n) is None || is_empty_braces(*n),
        },
{
    match n {
        Node::Array(v) => Some(v),
        _ => None,
    }
}

fn node_entries(n: &Node) -> (r: Option<&Vec<Entry>>)
    ensures
        match r {
            Some(e) => entries_of(*n) == Some(e@),
            None => entries_of(*n) is None || is_empty_braces(*n),
        },
{
    match n {
        Node::Table(e) => Some(e),
        _ => None,
    }
}

fn int_node(n: &Node, lo: i64, hi: i64) -> (r: Option<i64>)
    ensures
        match r {
            Some(v) => int_leaf(*n, lo as int, hi as int) == Some(v as int),
            None => int_leaf(*n, lo as int, hi as int) is None,
        },
{
    match scalar_node(n) {
        Node::Integer(t) => parse_int(t, lo, hi),
        Node::Text(t) => parse_int(t, lo, hi),
        _ => None,
    }
}

fn text_chars(n: &Node) -> (r: Option<&Vec<char>>)
    ensures
        match r {
            Some(t) => text_leaf(*n) == Some(t@),
            None => text_leaf(*n) is None,
        },
{
    match scalar_node(n) {
        Node::Text(t) => Some(t),
        _ => None,
    }
}

fn text_node(n: &Node) -> (r: Option<String>)
    ensures
        match r {
            Some(s) => text_leaf(*n) == Some(s@),
            None => text_leaf(*n) is None,
        },
{
    match text_chars(n) {
        Some(t) => Some(string_of(t)),
        None => None,
    }
}

fn int_nodes(n: &Node, lo: i64, hi: i64) -> (r: Option<Vec<i64>>)
    ensures
        match r {
            Some(v) => int_list(*n, lo as int, hi as int) == Some(ints_i64(v@)) && forall|i: int|
                0 <= i < v@.len() ==> lo <= #[trigger] v@[i] <= hi,
            None => int_list(*n, lo as int, hi as int) is None,
        },
{
    let mut out: Vec<i64> = Vec::new();
    match node_elements(n) {
        None => {
            if empty_braces(n) {
                assert(ints_i64(out@) =~= Seq::<int>::empty());
                return Some(out);
            }
            None
        },
        Some(v) => {
            let mut i: usize = 0;
            while i < v.len()
                invariant
                    i <= v.len(),
                    elements(*n) == Some(v@),
                    out@.len() == i,
                    forall|j: int|
                        0 <= j < i ==> int_leaf(v@[j], lo as int, hi as int) == Some(
                            #[trigger] out@[j] as int,
                        ),
                    forall|j: int| 0 <= j < i ==> lo <= #[trigger] out@[j] <= hi,
                decreases v.len() - i,
            {
                match int_node(&v[i], lo, hi) {
                    Some(x) => out.push(x),
                    None => {
                        assert((int_leaf(v@[i as int], lo as int, hi as int)) is None);
                        return None;
                    },
                }
                i = i + 1;
            }
            proof {
                assert forall|j: int| 0 <= j < v@.len() implies (#[trigger] int_leaf(
                    v@[j],
                    lo as int,
                    hi as int,
                )) is Some by {
                    assert(int_leaf(v@[j], lo as int, hi as int) == Some(out@[j] as int));
                }
                assert(ints_i64(out@) =~= Seq::new(
                    v@.len(),
                    |j: int| int_leaf(v@[j], lo as int, hi as int)->0,
                ));
            }
            Some(out)
        },
    }
}

fn to_i32s(v: &Vec<i64>) -> (r: Vec<i32>)
    requires
        forall|i: int| 0 <= i < v@.len() ==> I32_MIN <= #[trigger] v@[i] <= I32_MAX,
    ensures
        ints_i32(r@) == ints_i64(v@),
{
    let mut r: Vec<i32> = Vec::new();
    let mut i: usize = 0;
    while i < v.len()
        invariant
            i <= v.len(),
            r@.len() == i,
            forall|j: int| 0 <= j < v@.len() ==> I32_MIN <= #[trigger] v@[j] <= I32_MAX,
            forall|j: int| 0 <= j < i ==> r@[j] as int == v@[j] as int,
        decreases v.len() - i,
    {
        r.push(v[i] as i32);
        i = i + 1;
    }
    assert(ints_i32(r@) =~= ints_i64(v@));
    r
}

fn to_u32s(v: &Vec<i64>) -> (r: Vec<u32>)
    requires
        forall|i: int| 0 <= i < v@.len() ==> 0 <= #[trigger] v@[i] <= U32_MAX,
    ensures
        ints_u32(r@) == ints_i64(v@),
{
    let mut r: Vec<u32> = Vec::new();
    let mut i: usize = 0;
    while i < v.len()
        invariant
            i <= v.len(),
            r@.len() == i,
            forall|j: int| 0 <= j < v@.len() ==> 0 <= #[trigger] v@[j] <= U32_MAX,
            forall|j: int| 0 <= j < i ==> r@[j] as int == v@[j] as int,
        decreases v.len() - i,
    {
        r.push(v[i] as u32);
        i = i + 1;
    }
    assert(ints_u32(r@) =~= ints_i64(v@));
    r
}

fn text_nodes(n: &Node) -> (r: Option<Vec<String>>)
    ensures
        match r {
            Some(v) => text_list(*n) == Some(texts(v@)),
            None => text_list(*n) is None,
        },
{
    let mut out: Vec<String> = Vec::new();
    match node_elements(n) {
        None => {
            if empty_braces(n) {
                assert(texts(out@) =~= Seq::<Seq<char>>::empty());
                return Some(out);
            }
            None
        },
        Some(v) => {
            let mut i: usize = 0;
            while i < v.len()
                invariant
                    i <= v.len(),
                    elements(*n) == Some(v@),
                    out@.len() == i,
                    forall|j: int| 0 <= j < i ==> text_leaf(v@[j]) == Some(#[trigger] out@[j]@),
                decreases v.len() - i,
            {
                match text_node(&v[i]) {
                    Some(x) => out.push(x),
                    None => {
                        assert((text_leaf(v@[i as int])) is None);
                        return None;
                    },
                }
                i = i + 1;
            }
            proof {
                assert forall|j: int| 0 <= j < v@.len() implies (#[trigger] text_leaf(
                    v@[j],
                )) is Some by {
                    assert(text_leaf(v@[j]) == Some(out@[j]@));
                }
                assert(texts(out@) =~= Seq::new(v@.len(), |j: int| text_leaf(v@[j])->0));
            }
            Some(out)
        },
    }
}

fn schema(path: &str) -> (r: RbError)
    ensures
        r is Schema,
{
    RbError::Schema { path: String::from_str(path) }
}

/// A schema error at `Zones/<index>/<key>`.
fn zone_schema(index: usize, key: &str) -> (r: RbError)
    ensures
        r is Schema,
{
    let mut path = String::from_str("Zones/");
    push_nat(&mut path, index as u64);
    path.append("/");
    path.append(key);
    RbError::Schema { path }
}

fn is_zone_key_exec(k: &Vec<char>) -> (r: bool)
    ensures
        r == is_zone_key(k@),
{
    key_is(k, "transPre32") || key_is(k, "trans") || key_is(k, "transPost32") || key_is(
        k,
        "typeOffsets",
    ) || key_is(k, "typeMap") || key_is(k, "finalRule") || key_is(k, "finalRaw") || key_is(
        k,
        "finalYear",
    ) || key_is(k, "links")
}

fn opt_ints(index: usize, e: &Vec<Entry>, key: &str, lo: i64, hi: i64) -> (r: Result<
    Vec<i64>,
    RbError,
>)
    ensures
        match r {
            Ok(v) => opt_int_list(lookup(e@, key@), lo as int, hi as int) == Some(ints_i64(v@))
                && forall|i: int| 0 <= i < v@.len() ==> lo <= #[trigger] v@[i] <= hi,
            Err(err) => opt_int_list(lookup(e@, key@), lo as int, hi as int) is None
                && err is Schema,
        },
{
    match find(e, key) {
        None => {
            let v: Vec<i64> = Vec::new();
            assert(ints_i64(v@) =~= Seq::<int>::empty());
            Ok(v)
        },
        Some(n) => match int_nodes(n, lo, hi) {
            Some(v) => Ok(v),
            None => Err(zone_schema(index, key)),
        },
    }
}

fn opt_scalar(index: usize, e: &Vec<Entry>, key: &str) -> (r: Result<i32, RbError>)
    ensures
        match r {
            Ok(v) => opt_int(lookup(e@, key@), I32_MIN as int, I32_MAX as int) == Some(v as int),
            Err(err) => opt_int(lookup(e@, key@), I32_MIN as int, I32_MAX as int) is None
                && err is Schema,
        },
{
    match find(e, key) {
        None => Ok(0),
        Some(n) => match int_node(n, I32_MIN, I32_MAX) {
            Some(v) => Ok(v as i32),
            None => Err(zone_schema(index, key)),
        },
    }
}

/// Reads one zone-detail table; `index` only names the zone in errors.
fn zone_details(index: usize, e: &Vec<Entry>) -> (r: Result<Zone, RbError>)
    ensures
        match r {
            Ok(z) => zone_detail(e@) == Some(z@),
            Err(err) => zone_detail(e@) is None && err is Schema,
        },
{
    let mut i: usize = 0;
    while i < e.len()
        invariant
            i <= e.len(),
            forall|j: int| 0 <= j < i ==> is_zone_key(#[trigger] e@[j].key@),
        decreases e.len() - i,
    {
        if !is_zone_key_exec(&e[i].key) {
            assert(!is_zone_key(e@[i as int].key@));
            let mut path = String::from_str("Zones/");
            push_nat(&mut path, index as u64);
            path.append("/");
            path.append(string_of(&e[i].key).as_str());
            return Err(RbError::Schema { path });
        }
        i = i + 1;
    }
    let trans_pre32 = opt_ints(index, e, "transPre32", I32_MIN, I32_MAX)?;
    let trans = opt_ints(index, e, "trans", I32_MIN, I32_MAX)?;
    let trans_post32 = opt_ints(index, e, "transPost32", I32_MIN, I32_MAX)?;
    let type_offsets = opt_ints(index, e, "typeOffsets", I64_MIN, I64_MAX)?;
    let type_map: Vec<u8> = match find(e, "typeMap") {
        None => {
            let v: Vec<u8> = Vec::new();
            assert(ints_u8(v@) =~= Seq::<int>::empty());
            v
        },
        Some(n) => match text_chars(n) {
            Some(t) => match decode_hex(t) {
                Some(b) => b,
                None => return Err(zone_schema(index, "typeMap")),
            },
            None => return Err(zone_schema(index, "typeMap")),
        },
    };
    let final_rule_id = match find(e, "finalRule") {
        None => String::new(),
        Some(n) => match text_node(n) {
            Some(t) => t,
            None => return Err(zone_schema(index, "finalRule")),
        },
    };
    let final_raw = opt_scalar(index, e, "finalRaw")?;
    let final_year = opt_scalar(index, e, "finalYear")?;
    let aliases = opt_ints(index, e, "links", 0, U32_MAX)?;
    Ok(
        Zone::Detail {
            trans_pre32: to_i32s(&trans_pre32),
            trans: to_i32s(&trans),
            trans_post32: to_i32s(&trans_post32),
            type_offsets,
            type_map,
            final_rule_id,
            final_raw,
            final_year,
            aliases: to_u32s(&aliases),
        },
    )
}

/// Reads one element of `Zones`.
fn zone_entry(index: usize, n: &Node) -> (r: Result<Zone, RbError>)
    ensures
        match r {
            Ok(z) => zone_record(*n) == Some(z@),
            Err(err) => zone_record(*n) is None && err is Schema,
        },
{
    let m = scalar_node(n);
    if let Node::Integer(t) = m {
        return match parse_int(t, 0, U32_MAX) {
            Some(v) => Ok(Zone::AliasTo(v as u32)),
            None => Err(zone_schema(index, "alias")),
        };
    }
    match node_entries(m) {
        Some(e) => zone_details(index, e),
        None => {
            if empty_braces(m) {
                let empty: Vec<Entry> = Vec::new();
                assert(empty@ =~= Seq::<Entry>::empty());
                zone_details(index, &empty)
            } else {
                Err(zone_schema(index, "kind"))
            }
        },
    }
}

fn zones_of(n: &Node) -> (r: Result<Vec<Zone>, RbError>)
    ensures
        match r {
            Ok(v) => zone_list(*n) == Some(v@.map_values(|z: Zone| z@)),
            Err(err) => zone_list(*n) is None && err is Schema,
        },
{
    let mut out: Vec<Zone> = Vec::new();
    match node_elements(n) {
        None => {
            if empty_braces(n) {
                assert(out@.map_values(|z: Zone| z@) =~= Seq::<ZoneV>::empty());
                return Ok(out);
            }
            Err(schema("Zones"))
        },
        Some(v) => {
            let mut i: usize = 0;
            while i < v.len()
                invariant
                    i <= v.len(),
                    elements(*n) == Some(v@),
                    out@.len() == i,
                    forall|j: int| 0 <= j < i ==> zone_record(v@[j]) == Some(#[trigger] out@[j]@),
                decreases v.len() - i,
            {
                match zone_entry(i, &v[i]) {
                    Ok(z) => out.push(z),
                    Err(err) => {
                        assert((zone_record(v@[i as int])) is None);
                        return Err(err);
                    },
                }
                i = i + 1;
            }
            proof {
                assert forall|j: int| 0 <= j < v@.len() implies (#[trigger] zone_record(
                    v@[j],
                )) is Some by {
                    assert(zone_record(v@[j]) == Some(out@[j]@));
                }
                assert(out@.map_values(|z: Zone| z@) =~= Seq::new(
                    v@.len(),
                    |j: int| zone_record(v@[j])->0,
                ));
            }
            Ok(out)
        },
    }
}

fn rules_of(n: &Node) -> (r: Result<Vec<ZoneRule>, RbError>)
    ensures
        match r {
            Ok(v) => rule_list(*n) == Some(v@.map_values(|x: ZoneRule| x@)),
            Err(err) => rule_list(*n) is None && err is Schema,
        },
{
    let mut out: Vec<ZoneRule> = Vec::new();
    match node_entries(n) {
        None => {
            if empty_braces(n) {
                assert(out@.map_values(|x: ZoneRule| x@) =~= Seq::<ZoneRuleV>::empty());
                return Ok(out);
            }
            Err(schema("Rules"))
        },
        Some(e) => {
            let mut i: usize = 0;
            while i < e.len()
                invariant
                    i <= e.len(),
                    entries_of(*n) == Some(e@),
                    out@.len() == i,
                    forall|j: int|
                        0 <= j < i ==> (ZoneRuleV {
                            id: e@[j].key@,
                            values: int_list(e@[j].value, I32_MIN as int, I32_MAX as int)->0,
                        }) == #[trigger] out@[j]@,
                    forall|j: int|
                        0 <= j < i ==> (#[trigger] int_list(
                            e@[j].value,
                            I32_MIN as int,
                            I32_MAX as int,
                        )) is Some,
                decreases e.len() - i,
            {
                match int_nodes(&e[i].value, I32_MIN, I32_MAX) {
                    Some(values) => {
                        out.push(ZoneRule { id: string_of(&e[i].key), values: to_i32s(&values) });
                    },
                    None => {
                        assert((int_list(e@[i as int].value, I32_MIN as int, I32_MAX as int))
                            is None);
                        let mut path = String::from_str("Rules/");
                        path.append(string_of(&e[i].key).as_str());
                        return Err(RbError::Schema { path });
                    },
                }
                i = i + 1;
            }
            proof {
                assert forall|j: int| 0 <= j < e@.len() implies (#[trigger] int_list(
                    e@[j].value,
                    I32_MIN as int,
                    I32_MAX as int,
                )) is Some by {}
                assert(out@.map_values(|x: ZoneRule| x@) =~= Seq::new(
                    e@.len(),
                    |j: int|
                        ZoneRuleV {
                            id: e@[j].key@,
                            values: int_list(e@[j].value, I32_MIN as int, I32_MAX as int)->0,
                        },
                ));
            }
            Ok(out)
        },
    }
}

fn names_of(n: Option<&Node>, key: &str) -> (r: Result<Vec<String>, RbError>)
    ensures
        match r {
            Ok(v) => opt_list(
                match n {
                    Some(x) => Some(*x),
                    None => None,
                },
                |x: Node| text_list(x),
            ) == Some(texts(v@)),
            Err(err) => opt_list(
                match n {
                    Some(x) => Some(*x),
                    None => None,
                },
                |x: Node| text_list(x),
            ) is None && err is Schema,
        },
{
    match n {
        None => {
            let v: Vec<String> = Vec::new();
            assert(texts(v@) =~= Seq::<Seq<char>>::empty());
            Ok(v)
        },
        Some(x) => match text_nodes(x) {
            Some(v) => Ok(v),
            None => Err(schema(key)),
        },
    }
}

/// Builds the model that a parse tree describes.
///
/// Succeeds exactly when the tree fits the schema; on failure the error is a
/// schema error naming the offending key.
pub fn extract(root: &Node) -> (r: Result<ZoneInfo, RbError>)
    ensures
        match r {
            Ok(m) => model_of(*root) == Some(m@),
            Err(err) => model_of(*root) is None && err is Schema,
        },
{
    let empty: Vec<Entry> = Vec::new();
    let e: &Vec<Entry> = match node_entries(root) {
        Some(e) => e,
        None => {
            if empty_braces(root) {
                &empty
            } else {
                return Err(schema("root"));
            }
        },
    };
    assert(entries_of(*root) == Some(e@)) by {
        if is_empty_braces(*root) {
            assert(e@ =~= Seq::<Entry>::empty());
        }
    }
    let zones: Vec<Zone> = match find(e, "Zones") {
        None => {
            let v: Vec<Zone> = Vec::new();
            assert(v@.map_values(|z: Zone| z@) =~= Seq::<ZoneV>::empty());
            v
        },
        Some(n) => zones_of(n)?,
    };
    let names = names_of(find(e, "Names"), "Names")?;
    let rules: Vec<ZoneRule> = match find(e, "Rules") {
        None => {
            let v: Vec<ZoneRule> = Vec::new();
            assert(v@.map_values(|x: ZoneRule| x@) =~= Seq::<ZoneRuleV>::empty());
            v
        },
        Some(n) => rules_of(n)?,
    };
    let regions = names_of(find(e, "Regions"), "Regions")?;
    let m = ZoneInfo { version: String::new(), zones, names, rules, regions };
    assert(model_of(*root) == Some(m@));
    Ok(m)
}

} // verus!
