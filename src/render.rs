//! The five literal tables written from a [`ZoneInfo`].
//!
//! Every record ends with `,` and a line break; records follow the model's order.

use vstd::prelude::*;
use vstd::string::*;
use crate::text::{int_text, braced, push_int, push_nat, push_csv};
use crate::zone_info::{
    Zone, ZoneV, ZoneRuleV, ZoneInfo, ZoneInfoV, ints_i32, ints_i64, ints_u8, ints_u32,
    texts,
};

verus! {

/// `{<index>, <target>},` and a line break.
pub open spec fn alias_line(index: int, target: int) -> Seq<char> {
    "{"@ + int_text(index) + ", "@ + int_text(target) + "},\n"@
}

/// The alias record of the zone at `index`; empty for a detail record.
pub open spec fn alias_record(index: int, z: ZoneV) -> Seq<char> {
    match z {
        ZoneV::AliasTo(t) => alias_line(index, t),
        ZoneV::Detail { .. } => Seq::empty(),
    }
}

/// The detail record of the zone at `index`; empty for an alias.
pub open spec fn detail_record(index: int, z: ZoneV) -> Seq<char> {
    match z {
        ZoneV::AliasTo(_) => Seq::empty(),
        ZoneV::Detail {
            trans_pre32,
            trans,
            trans_post32,
            type_offsets,
            type_map,
            final_rule_id,
            final_raw,
            final_year,
            aliases,
        } => "{"@ + int_text(index) + ", "@ + braced(trans_pre32) + ", "@ + braced(trans) + ", "@
            + braced(trans_post32) + ", "@ + braced(type_offsets) + ", "@ + braced(type_map)
            + ", \""@ + final_rule_id + "\", "@ + int_text(final_raw) + ", "@ + int_text(
            final_year,
        ) + ", "@ + braced(aliases) + "},\n"@,
    }
}

/// Alias records of `zones`, each numbered by its position.
pub open spec fn aliases_def(zones: Seq<ZoneV>) -> Seq<char>
    decreases zones.len(),
{
    if zones.len() == 0 {
        Seq::empty()
    } else {
        aliases_def(zones.drop_last()) + alias_record(zones.len() - 1, zones.last())
    }
}

/// Detail records of `zones`, each numbered by its position.
pub open spec fn zones_def(zones: Seq<ZoneV>) -> Seq<char>
    decreases zones.len(),
{
    if zones.len() == 0 {
        Seq::empty()
    } else {
        zones_def(zones.drop_last()) + detail_record(zones.len() - 1, zones.last())
    }
}

/// `{"<id>", {<values>}},` and a line break.
pub open spec fn rule_line(r: ZoneRuleV) -> Seq<char> {
    "{\""@ + r.id + "\", "@ + braced(r.values) + "},\n"@
}

pub open spec fn rules_def(rules: Seq<ZoneRuleV>) -> Seq<char>
    decreases rules.len(),
{
    if rules.len() == 0 {
        Seq::empty()
    } else {
        rules_def(rules.drop_last()) + rule_line(rules.last())
    }
}

/// `"<entry>",` and a line break.
pub open spec fn quoted_line(s: Seq<char>) -> Seq<char> {
    "\""@ + s + "\",\n"@
}

pub open spec fn lines_def(entries: Seq<Seq<char>>) -> Seq<char>
    decreases entries.len(),
{
    if entries.len() == 0 {
        Seq::empty()
    } else {
        lines_def(entries.drop_last()) + quoted_line(entries.last())
    }
}

/// The five rendered tables of one model.
#[derive(Debug, Clone, PartialEq, Eq)]
pub struct DefFiles {
    pub aliases: String,
    pub zones: String,
    pub rules: String,
    pub names: String,
    pub regions: String,
}

/// What [`ZoneInfo::write_to`] produces for a model view.
pub open spec fn defs_of(m: ZoneInfoV) -> (Seq<char>, Seq<char>, Seq<char>, Seq<char>, Seq<char>) {
    (aliases_def(m.zones), zones_def(m.zones), rules_def(m.rules), lines_def(m.names), lines_def(
        m.regions,
    ))
}

impl DefFiles {
    pub open spec fn texts(&self) -> (Seq<char>, Seq<char>, Seq<char>, Seq<char>, Seq<char>) {
        (self.aliases@, self.zones@, self.rules@, self.names@, self.regions@)
    }
}

fn widen_i32(v: &Vec<i32>) -> (r: Vec<i64>)
    ensures
        ints_i64(r@) == ints_i32(v@),
{
    let mut r: Vec<i64> = Vec::new();
    let mut i: usize = 0;
    while i < v.len()
        invariant
            i <= v.len(),
            r@.len() == i,
            forall|j: int| 0 <= j < i ==> r@[j] as int == v@[j] as int,
        decreases v.len() - i,
    {
        r.push(v[i] as i64);
        i = i + 1;
    }
    assert(ints_i64(r@) =~= ints_i32(v@));
    r
}

fn widen_u8(v: &Vec<u8>) -> (r: Vec<i64>)
    ensures
        ints_i64(r@) == ints_u8(v@),
{
    let mut r: Vec<i64> = Vec::new();
    let mut i: usize = 0;
    while i < v.len()
        invariant
            i <= v.len(),
            r@.len() == i,
            forall|j: int| 0 <= j < i ==> r@[j] as int == v@[j] as int,
        decreases v.len() - i,
    {
        r.push(v[i] as i64);
        i = i + 1;
    }
    assert(ints_i64(r@) =~= ints_u8(v@));
    r
}

fn widen_u32(v: &Vec<u32>) -> (r: Vec<i64>)
    ensures
        ints_i64(r@) == ints_u32(v@),
{
    let mut r: Vec<i64> = Vec::new();
    let mut i: usize = 0;
    while i < v.len()
        invariant
            i <= v.len(),
            r@.len() == i,
            forall|j: int| 0 <= j < i ==> r@[j] as int == v@[j] as int,
        decreases v.len() - i,
    {
        r.push(v[i] as i64);
        i = i + 1;
    }
    assert(ints_i64(r@) =~= ints_u32(v@));
    r
}

fn push_braced(out: &mut String, v: &Vec<i64>)
    ensures
        final(out)@ == old(out)@ + braced(ints_i64(v@)),
{
    out.append("{");
    push_csv(out, v);
    out.append("}");
    assert(final(out)@ =~= old(out)@ + braced(ints_i64(v@)));
}

fn detail_text(index: usize, z: &Zone) -> (r: String)
    ensures
        r@ == detail_record(index as int, z@),
{
    match z {
        Zone::AliasTo(_) => String::new(),
        Zone::Detail {
            trans_pre32,
            trans,
            trans_post32,
            type_offsets,
            type_map,
            final_rule_id,
            final_raw,
            final_year,
            aliases,
        } => {
            let mut line = String::new();
            line.append("{");
            push_nat(&mut line, index as u64);
            line.append(", ");
            push_braced(&mut line, &widen_i32(trans_pre32));
            line.append(", ");
            push_braced(&mut line, &widen_i32(trans));
            line.append(", ");
            push_braced(&mut line, &widen_i32(trans_post32));
            line.append(", ");
            push_braced(&mut line, type_offsets);
            line.append(", ");
            push_braced(&mut line, &widen_u8(type_map));
            line.append(", \"");
            line.append(final_rule_id.as_str());
            line.append("\", ");
            push_int(&mut line, *final_raw as i64);
            line.append(", ");
            push_int(&mut line, *final_year as i64);
            line.append(", ");
            push_braced(&mut line, &widen_u32(aliases));
            line.append("},\n");
            assert(line@ =~= detail_record(index as int, z@));
            line
        },
    }
}

fn push_lines(out: &mut String, v: &Vec<String>)
    ensures
        final(out)@ == old(out)@ + lines_def(texts(v@)),
{
    let ghost start = out@;
    let mut i: usize = 0;
    while i < v.len()
        invariant
            i <= v.len(),
            out@ == start + lines_def(texts(v@.subrange(0, i as int))),
        decreases v.len() - i,
    {
        out.append("\"");
        out.append(v[i].as_str());
        out.append("\",\n");
        proof {
            assert(texts(v@.subrange(0, i + 1)).drop_last() =~= texts(v@.subrange(0, i as int)));
        }
        i = i + 1;
        assert(out@ =~= start + lines_def(texts(v@.subrange(0, i as int))));
    }
    assert(v@.subrange(0, v.len() as int) =~= v@);
}

impl ZoneInfo {
    /// One `{index, target},` line per alias zone, numbered by its own position.
    pub fn write_zone_aliases(&self) -> (r: String)
        ensures
            r@ == aliases_def(self@.zones),
    {
        let mut out = String::new();
        let mut i: usize = 0;
        while i < self.zones.len()
            invariant
                i <= self.zones.len(),
                out@ == aliases_def(self@.zones.subrange(0, i as int)),
            decreases self.zones.len() - i,
        {
            proof {
                assert(self@.zones.subrange(0, i + 1).drop_last() =~= self@.zones.subrange(
                    0,
                    i as int,
                ));
            }
            if let Zone::AliasTo(target) = &self.zones[i] {
                out.append("{");
                push_nat(&mut out, i as u64);
                out.append(", ");
                push_nat(&mut out, *target as u64);
                out.append("},\n");
            }
            i = i + 1;
            assert(out@ =~= aliases_def(self@.zones.subrange(0, i as int)));
        }
        assert(self@.zones.subrange(0, self.zones.len() as int) =~= self@.zones);
        out
    }

    /// One detail line per detail zone, numbered by its own position.
    pub fn write_zone_details(&self) -> (r: String)
        ensures
            r@ == zones_def(self@.zones),
    {
        let mut out = String::new();
        let mut i: usize = 0;
        while i < self.zones.len()
            invariant
                i <= self.zones.len(),
                out@ == zones_def(self@.zones.subrange(0, i as int)),
            decreases self.zones.len() - i,
        {
            proof {
                assert(self@.zones.subrange(0, i + 1).drop_last() =~= self@.zones.subrange(
                    0,
                    i as int,
                ));
            }
            let line = detail_text(i, &self.zones[i]);
            out.append(line.as_str());
            i = i + 1;
            assert(out@ =~= zones_def(self@.zones.subrange(0, i as int)));
        }
        assert(self@.zones.subrange(0, self.zones.len() as int) =~= self@.zones);
        out
    }

    /// One `{"id", {values}},` line per rule.
    pub fn write_rules(&self) -> (r: String)
        ensures
            r@ == rules_def(self@.rules),
    {
        let mut out = String::new();
        let mut i: usize = 0;
        while i < self.rules.len()
            invariant
                i <= self.rules.len(),
                out@ == rules_def(self@.rules.subrange(0, i as int)),
            decreases self.rules.len() - i,
        {
            proof {
                assert(self@.rules.subrange(0, i + 1).drop_last() =~= self@.rules.subrange(
                    0,
                    i as int,
                ));
            }
            let rule = &self.rules[i];
            out.append("{\"");
            out.append(rule.id.as_str());
            out.append("\", ");
            push_braced(&mut out, &widen_i32(&rule.values));
            out.append("},\n");
            i = i + 1;
            assert(out@ =~= rules_def(self@.rules.subrange(0, i as int)));
        }
        assert(self@.rules.subrange(0, self.rules.len() as int) =~= self@.rules);
        out
    }

    /// One `"name",` line per zone name.
    pub fn write_names(&self) -> (r: String)
        ensures
            r@ == lines_def(self@.names),
    {
        let mut out = String::new();
        push_lines(&mut out, &self.names);
        out
    }

    /// One `"region",` line per region.
    pub fn write_regions(&self) -> (r: String)
        ensures
            r@ == lines_def(self@.regions),
    {
        let mut out = String::new();
        push_lines(&mut out, &self.regions);
        out
    }

    /// All five tables; the model is left as it was.
    pub fn write_to(&self) -> (r: DefFiles)
        ensures
            r.texts() == defs_of(self@),
    {
        DefFiles {
            aliases: self.write_zone_aliases(),
            zones: self.write_zone_details(),
            rules: self.write_rules(),
            names: self.write_names(),
            regions: self.write_regions(),
        }
    }
}

} // verus!
