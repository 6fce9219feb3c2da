//! The typed model built from a resource bundle, and its mathematical view.

use vstd::prelude::*;

verus! {

/// One time-zone entry: an alias to another zone by position, or a full record.
#[derive(Debug, Clone, PartialEq, Eq)]
pub enum Zone {
    AliasTo(u32),
    Detail {
        trans_pre32: Vec<i32>,
        trans: Vec<i32>,
        trans_post32: Vec<i32>,
        type_offsets: Vec<i64>,
        type_map: Vec<u8>,
        final_rule_id: String,
        final_raw: i32,
        final_year: i32,
        aliases: Vec<u32>,
    },
}

/// A named recurring rule with its integer parameters.
#[derive(Debug, Clone, PartialEq, Eq)]
pub struct ZoneRule {
    pub id: String,
    pub values: Vec<i32>,
}

/// Everything read from one resource bundle.
///
/// The position of a zone in `zones` is its identifier.
#[derive(Debug, Clone, PartialEq, Eq)]
pub struct ZoneInfo {
    pub version: String,
    pub zones: Vec<Zone>,
    pub names: Vec<String>,
    pub rules: Vec<ZoneRule>,
    pub regions: Vec<String>,
}

/// Mathematical view of a [`Zone`]; integers of every width become `int`.
pub enum ZoneV {
    AliasTo(int),
    Detail {
        trans_pre32: Seq<int>,
        trans: Seq<int>,
        trans_post32: Seq<int>,
        type_offsets: Seq<int>,
        type_map: Seq<int>,
        final_rule_id: Seq<char>,
        final_raw: int,
        final_year: int,
        aliases: Seq<int>,
    },
}

/// Mathematical view of a [`ZoneRule`].
pub struct ZoneRuleV {
    pub id: Seq<char>,
    pub values: Seq<int>,
}

/// Mathematical view of a [`ZoneInfo`].
pub struct ZoneInfoV {
    pub version: Seq<char>,
    pub zones: Seq<ZoneV>,
    pub names: Seq<Seq<char>>,
    pub rules: Seq<ZoneRuleV>,
    pub regions: Seq<Seq<char>>,
}

pub open spec fn ints_i32(v: Seq<i32>) -> Seq<int> {
    v.map_values(|x: i32| x as int)
}

pub open spec fn ints_i64(v: Seq<i64>) -> Seq<int> {
    v.map_values(|x: i64| x as int)
}

pub open spec fn ints_u8(v: Seq<u8>) -> Seq<int> {
    v.map_values(|x: u8| x as int)
}

pub open spec fn ints_u32(v: Seq<u32>) -> Seq<int> {
    v.map_values(|x: u32| x as int)
}

pub open spec fn texts(v: Seq<String>) -> Seq<Seq<char>> {
    v.map_values(|x: String| x@)
}

impl View for Zone {
    type V = ZoneV;

    open spec fn view(&self) -> ZoneV {
        match self {
            Zone::AliasTo(t) => ZoneV::AliasTo(*t as int),
            Zone::Detail {
                trans_pre32,
                trans,
                trans_post32,
                type_offsets,
                type_map,
                final_rule_id,
                final_raw,
                final_year,
                aliases,
            } => ZoneV::Detail {
                trans_pre32: ints_i32(trans_pre32@),
                trans: ints_i32(trans@),
                trans_post32: ints_i32(trans_post32@),
                type_offsets: ints_i64(type_offsets@),
                type_map: ints_u8(type_map@),
                final_rule_id: final_rule_id@,
                final_raw: *final_raw as int,
                final_year: *final_year as int,
                aliases: ints_u32(aliases@),
            },
        }
    }
}

impl View for ZoneRule {
    type V = ZoneRuleV;

    open spec fn view(&self) -> ZoneRuleV {
        ZoneRuleV { id: self.id@, values: ints_i32(self.values@) }
    }
}

impl View for ZoneInfo {
    type V = ZoneInfoV;

    open spec fn view(&self) -> ZoneInfoV {
        ZoneInfoV {
            version: self.version@,
            zones: self.zones@.map_values(|z: Zone| z@),
            names: texts(self.names@),
            rules: self.rules@.map_values(|r: ZoneRule| r@),
            regions: texts(self.regions@),
        }
    }
}

} // verus!
