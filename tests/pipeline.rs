use tz_defs::rb_parser::{chars_of, ResourceBundleParser};
use tz_defs::scalar::{decode_hex, parse_int};
use tz_defs::tree::RbError;
use tz_defs::zone_info::{Zone, ZoneInfo, ZoneRule};

fn chars(s: &str) -> Vec<char> {
    s.chars().collect()
}

fn detail(trans: Vec<i32>) -> Zone {
    Zone::Detail {
        trans_pre32: vec![],
        trans,
        trans_post32: vec![],
        type_offsets: vec![],
        type_map: vec![],
        final_rule_id: String::new(),
        final_raw: 0,
        final_year: 0,
        aliases: vec![],
    }
}

fn is_schema(r: &Result<ZoneInfo, RbError>) -> bool {
    matches!(r, Err(RbError::Schema { .. }))
}

fn is_syntax(r: &Result<ZoneInfo, RbError>) -> bool {
    matches!(r, Err(RbError::Syntax { .. }))
}

const ICU_SAMPLE: &str = "zoneinfo64:table(nofallback) {
    TZVersion { \"2023c\" }
    Zones:array {
        /* ACT */ :int { 2 } //Z#0
        ,/* Africa/Abidjan */ :table {
            trans:intvector { -1830383032 }
            typeOffsets:intvector { -968, 0 }
            typeMap:bin { \"01\" }
        } //Z#1
        ,/* America/New_York */ :table {
            transPre32:intvector { -1, 2087447296 }
            trans:intvector { -1633280400, -1615140000 }
            transPost32:intvector { 0, -2 }
            typeOffsets:intvector { -17762, 0, -18000, 0, -18000, 3600 }
            typeMap:bin { \"0a1F\" }
            finalRule { \"US\" }
            finalRaw:int { -18000 }
            finalYear:int { 2008 }
            links:intvector { 0, 17 }
        } //Z#2
    }
    Names:array {
        \"ACT\", \"Africa/Abidjan\", \"America/New_York\",
    }
    Rules {
        US:intvector { 2, 8, -1, 7200, 0, 10, 1, -1, 7200, 0, 3600 }
        EU:intvector { 2, -31, -1, 3600, 2, 9, -31, -1, 3600, 2, 3600 }
    }
    Regions:array { \"AU\", \"CI\", \"US\" }
}
";

#[test]
fn hex_decodes_pairs_high_nibble_first() {
    assert_eq!(decode_hex(&chars("0a1f")), Some(vec![0x0a, 0x1f]));
    assert_eq!(decode_hex(&chars("FF00")), Some(vec![0xff, 0x00]));
    assert_eq!(decode_hex(&chars("")), Some(vec![]));
    assert_eq!(decode_hex(&chars("0a1f0b")).map(|v| v.len()), Some(3));
}

#[test]
fn hex_rejects_odd_length_and_bad_digits() {
    assert_eq!(decode_hex(&chars("0a1")), None);
    assert_eq!(decode_hex(&chars("0g")), None);
}

#[test]
fn odd_type_map_is_a_schema_error() {
    let r = ResourceBundleParser::parse_to_zone_info("z { Zones { { typeMap { \"012\" } } } }");
    assert!(is_schema(&r));
}

#[test]
fn integers_parse_within_bounds() {
    assert_eq!(parse_int(&chars("3600"), -100, 5000), Some(3600));
    assert_eq!(parse_int(&chars("-18000"), -20000, 0), Some(-18000));
    assert_eq!(parse_int(&chars("5001"), -100, 5000), None);
    assert_eq!(parse_int(&chars("-"), -100, 5000), None);
    assert_eq!(parse_int(&chars(""), -100, 5000), None);
    assert_eq!(parse_int(&chars("1x"), -100, 5000), None);
    assert_eq!(parse_int(&chars("+1"), -100, 5000), None);
    assert_eq!(
        parse_int(&chars("-9223372036854775808"), i64::MIN, i64::MAX),
        Some(i64::MIN)
    );
    assert_eq!(parse_int(&chars("9223372036854775808"), i64::MIN, i64::MAX), None);
    assert_eq!(parse_int(&chars("99999999999999999999999999"), i64::MIN, i64::MAX), None);
}

#[test]
fn chars_of_keeps_every_character() {
    assert_eq!(chars_of("aé\"z"), vec!['a', 'é', '"', 'z']);
}

#[test]
fn end_to_end_single_detail_zone() {
    let input = "ZoneFoo{\"Zones\":{{\"trans\":{10,20},\"finalRaw\":\"3600\"}},\"Names\":{\"Foo\"}}";
    let info = ResourceBundleParser::parse_to_zone_info(input).unwrap();
    assert_eq!(info.zones.len(), 1);
    assert_eq!(
        info.zones[0],
        Zone::Detail {
            trans_pre32: vec![],
            trans: vec![10, 20],
            trans_post32: vec![],
            type_offsets: vec![],
            type_map: vec![],
            final_rule_id: String::new(),
            final_raw: 3600,
            final_year: 0,
            aliases: vec![],
        }
    );
    assert_eq!(info.names, vec!["Foo".to_string()]);
    assert!(info.rules.is_empty());
    assert!(info.regions.is_empty());
    assert_eq!(info.version, "");
    let defs = info.write_to();
    assert_eq!(defs.zones, "{0, {}, {10,20}, {}, {}, {}, \"\", 3600, 0, {}},\n");
    assert_eq!(defs.aliases, "");
    assert_eq!(defs.names, "\"Foo\",\n");
    assert_eq!(defs.rules, "");
    assert_eq!(defs.regions, "");
}

#[test]
fn absent_keys_take_defaults() {
    let info =
        ResourceBundleParser::parse_to_zone_info("z { Zones { { trans { 5 } finalRaw { 7 } } } }")
            .unwrap();
    match &info.zones[0] {
        Zone::Detail { aliases, final_year, final_rule_id, type_map, final_raw, .. } => {
            assert!(aliases.is_empty());
            assert_eq!(*final_year, 0);
            assert_eq!(final_rule_id, "");
            assert!(type_map.is_empty());
            assert_eq!(*final_raw, 7);
        }
        Zone::AliasTo(_) => panic!("expected a detail record"),
    }
}

#[test]
fn alias_record_uses_own_position() {
    let info = ZoneInfo {
        version: String::new(),
        zones: vec![Zone::AliasTo(2), detail(vec![1]), detail(vec![])],
        names: vec![],
        rules: vec![],
        regions: vec![],
    };
    assert_eq!(info.write_zone_aliases(), "{0, 2},\n");
    assert_eq!(
        info.write_zone_details(),
        "{1, {}, {1}, {}, {}, {}, \"\", 0, 0, {}},\n{2, {}, {}, {}, {}, {}, \"\", 0, 0, {}},\n"
    );
}

#[test]
fn alias_records_from_parsed_zones() {
    let info = ResourceBundleParser::parse_to_zone_info(
        "z { Zones { 2, { trans { 1 } }, { trans { 2 } }, 0 } }",
    )
    .unwrap();
    assert_eq!(info.zones[0], Zone::AliasTo(2));
    assert_eq!(info.zones[3], Zone::AliasTo(0));
    assert_eq!(info.write_zone_aliases(), "{0, 2},\n{3, 0},\n");
}

#[test]
fn unknown_zone_key_is_rejected() {
    let r = ResourceBundleParser::parse_to_zone_info(
        "z { \"Zones\": { { \"trans\": {1,2}, \"bogus\": {1,2} } } }",
    );
    assert!(is_schema(&r));
    match r {
        Err(RbError::Schema { path }) => assert_eq!(path, "Zones/0/bogus"),
        _ => panic!("expected a schema error"),
    }
}

#[test]
fn unknown_top_level_key_is_passed_over() {
    let info =
        ResourceBundleParser::parse_to_zone_info("z { TZVersion { \"2023c\" } Other { a { 1 } } }")
            .unwrap();
    assert!(info.zones.is_empty());
    assert!(info.names.is_empty());
    assert_eq!(info.version, "");
}

#[test]
fn duplicate_keys_last_wins() {
    let info = ResourceBundleParser::parse_to_zone_info(
        "z { Names { \"A\" } Zones { { trans { 1 } trans { 2, 3 } } } Names { \"B\", \"C\" } }",
    )
    .unwrap();
    assert_eq!(info.names, vec!["B".to_string(), "C".to_string()]);
    assert_eq!(info.zones[0], detail(vec![2, 3]));
}

#[test]
fn repeated_rule_ids_are_kept() {
    let info =
        ResourceBundleParser::parse_to_zone_info("z { Rules { US { 1, 2 } US { 3 } EU { } } }")
            .unwrap();
    assert_eq!(
        info.rules,
        vec![
            ZoneRule { id: "US".to_string(), values: vec![1, 2] },
            ZoneRule { id: "US".to_string(), values: vec![3] },
            ZoneRule { id: "EU".to_string(), values: vec![] },
        ]
    );
    assert_eq!(info.write_rules(), "{\"US\", {1,2}},\n{\"US\", {3}},\n{\"EU\", {}},\n");
}

#[test]
fn wrong_kinds_are_schema_errors() {
    // an alias that does not fit u32
    assert!(is_schema(&ResourceBundleParser::parse_to_zone_info("z { Zones { -1 } }")));
    // a transition that does not fit i32
    assert!(is_schema(&ResourceBundleParser::parse_to_zone_info(
        "z { Zones { { trans { 2147483648 } } } }"
    )));
    // names must be quoted
    assert!(is_schema(&ResourceBundleParser::parse_to_zone_info("z { Names { 1, 2 } }")));
    // Zones must be an array
    assert!(is_schema(&ResourceBundleParser::parse_to_zone_info("z { Zones \"x\" }")));
    // the root must be a table
    assert!(is_schema(&ResourceBundleParser::parse_to_zone_info("z { 1, 2 }")));
    // a bad hex digit in typeMap
    assert!(is_schema(&ResourceBundleParser::parse_to_zone_info(
        "z { Zones { { typeMap { \"0z\" } } } }"
    )));
}

#[test]
fn malformed_text_is_a_syntax_error() {
    assert!(is_syntax(&ResourceBundleParser::parse_to_zone_info("")));
    assert!(is_syntax(&ResourceBundleParser::parse_to_zone_info("z { Zones { 1, 2 }")));
    assert!(is_syntax(&ResourceBundleParser::parse_to_zone_info("z { Names { \"abc } }")));
    assert!(is_syntax(&ResourceBundleParser::parse_to_zone_info("z { a { 1 } } }")));
    assert!(is_syntax(&ResourceBundleParser::parse_to_zone_info("z { a { 1 2 } }")));
    assert!(is_syntax(&ResourceBundleParser::parse_to_zone_info("z { /* open")));
    assert!(is_syntax(&ResourceBundleParser::parse_to_zone_info("{ a { 1 } }")));
    match ResourceBundleParser::parse_to_zone_info("z { a { 1 ; } }") {
        Err(RbError::Syntax { offset }) => assert_eq!(offset, 10),
        other => panic!("unexpected {:?}", other),
    }
}

#[test]
fn trailing_comma_in_array_is_accepted() {
    let info = ResourceBundleParser::parse_to_zone_info("z { Regions { \"AU\", \"CI\", } }").unwrap();
    assert_eq!(info.regions, vec!["AU".to_string(), "CI".to_string()]);
    assert_eq!(info.write_regions(), "\"AU\",\n\"CI\",\n");
}

#[test]
fn icu_text_form_is_read() {
    let info = ResourceBundleParser::parse_to_zone_info(ICU_SAMPLE).unwrap();
    assert_eq!(info.zones.len(), 3);
    assert_eq!(info.zones[0], Zone::AliasTo(2));
    assert_eq!(
        info.zones[2],
        Zone::Detail {
            trans_pre32: vec![-1, 2087447296],
            trans: vec![-1633280400, -1615140000],
            trans_post32: vec![0, -2],
            type_offsets: vec![-17762, 0, -18000, 0, -18000, 3600],
            type_map: vec![0x0a, 0x1f],
            final_rule_id: "US".to_string(),
            final_raw: -18000,
            final_year: 2008,
            aliases: vec![0, 17],
        }
    );
    assert_eq!(info.names.len(), 3);
    assert_eq!(info.rules.len(), 2);
    assert_eq!(info.regions, vec!["AU".to_string(), "CI".to_string(), "US".to_string()]);
    let defs = info.write_to();
    assert_eq!(defs.aliases, "{0, 2},\n");
    assert_eq!(
        defs.zones,
        "{1, {}, {-1830383032}, {}, {-968,0}, {1}, \"\", 0, 0, {}},\n\
         {2, {-1,2087447296}, {-1633280400,-1615140000}, {0,-2}, \
         {-17762,0,-18000,0,-18000,3600}, {10,31}, \"US\", -18000, 2008, {0,17}},\n"
    );
    assert_eq!(
        defs.rules,
        "{\"US\", {2,8,-1,7200,0,10,1,-1,7200,0,3600}},\n{\"EU\", {2,-31,-1,3600,2,9,-31,-1,3600,2,3600}},\n"
    );
    assert_eq!(defs.names, "\"ACT\",\n\"Africa/Abidjan\",\n\"America/New_York\",\n");
    assert_eq!(defs.regions, "\"AU\",\n\"CI\",\n\"US\",\n");
}

#[test]
fn rendering_twice_gives_identical_tables() {
    let info = ResourceBundleParser::parse_to_zone_info(ICU_SAMPLE).unwrap();
    let a = info.write_to();
    let b = info.write_to();
    assert_eq!(a, b);
}

#[test]
fn extreme_values_render_exactly() {
    let info = ZoneInfo {
        version: String::new(),
        zones: vec![
            Zone::Detail {
                trans_pre32: vec![i32::MIN],
                trans: vec![i32::MAX],
                trans_post32: vec![],
                type_offsets: vec![i64::MIN, i64::MAX],
                type_map: vec![0, 255],
                final_rule_id: "R".to_string(),
                final_raw: -1,
                final_year: 10,
                aliases: vec![u32::MAX],
            },
            Zone::AliasTo(u32::MAX),
        ],
        names: vec![],
        rules: vec![],
        regions: vec![],
    };
    assert_eq!(
        info.write_zone_details(),
        "{0, {-2147483648}, {2147483647}, {}, {-9223372036854775808,9223372036854775807}, {0,255}, \"R\", -1, 10, {4294967295}},\n"
    );
    assert_eq!(info.write_zone_aliases(), "{1, 4294967295},\n");
}

#[test]
fn written_model_reads_back() {
    let original = ResourceBundleParser::parse_to_zone_info(ICU_SAMPLE).unwrap();
    let mut text = String::from("bundle {\n Zones {\n");
    for zone in &original.zones {
        match zone {
            Zone::AliasTo(t) => text.push_str(&format!("  {},\n", t)),
            Zone::Detail {
                trans_pre32,
                trans,
                trans_post32,
                type_offsets,
                type_map,
                final_rule_id,
                final_raw,
                final_year,
                aliases,
            } => {
                let list = |v: Vec<String>| v.join(", ");
                text.push_str(&format!(
                    "  {{ transPre32 {{ {} }} trans {{ {} }} transPost32 {{ {} }} typeOffsets {{ {} }} typeMap {{ \"{}\" }} finalRule {{ \"{}\" }} finalRaw {{ {} }} finalYear {{ {} }} links {{ {} }} }},\n",
                    list(trans_pre32.iter().map(|x| x.to_string()).collect()),
                    list(trans.iter().map(|x| x.to_string()).collect()),
                    list(trans_post32.iter().map(|x| x.to_string()).collect()),
                    list(type_offsets.iter().map(|x| x.to_string()).collect()),
                    type_map.iter().map(|b| format!("{:02x}", b)).collect::<String>(),
                    final_rule_id,
                    final_raw,
                    final_year,
                    list(aliases.iter().map(|x| x.to_string()).collect()),
                ));
            }
        }
    }
    text.push_str(" }\n Names { ");
    for n in &original.names {
        text.push_str(&format!("\"{}\", ", n));
    }
    text.push_str("}\n Rules { ");
    for r in &original.rules {
        let vals: Vec<String> = r.values.iter().map(|x| x.to_string()).collect();
        text.push_str(&format!("{} {{ {} }} ", r.id, vals.join(", ")));
    }
    text.push_str("}\n Regions { ");
    for n in &original.regions {
        text.push_str(&format!("\"{}\", ", n));
    }
    text.push_str("}\n}\n");
    let again = ResourceBundleParser::parse_to_zone_info(&text).unwrap();
    assert_eq!(again, original);
}

#[test]
fn comments_and_type_tags_are_layout() {
    let text = "// header\nz:table(nofallback) { /* block */ Names:array { \"A\" // note\n , \"B\" } }";
    let info = ResourceBundleParser::parse_to_zone_info(text).unwrap();
    assert_eq!(info.names, vec!["A".to_string(), "B".to_string()]);
}

#[test]
fn empty_braces_read_as_empty_array_or_table() {
    let info = ResourceBundleParser::parse_to_zone_info("z { Zones { {} } Rules { } Names { } }")
        .unwrap();
    assert_eq!(info.zones, vec![detail(vec![])]);
    assert!(info.rules.is_empty());
    assert!(info.names.is_empty());
    assert!(ResourceBundleParser::parse_to_zone_info("z { }").unwrap().zones.is_empty());
}

#[test]
fn quoted_text_keeps_escapes_as_written() {
    let info = ResourceBundleParser::parse_to_zone_info("z { Names { \"a\\\"b\" } }").unwrap();
    assert_eq!(info.names, vec!["a\\\"b".to_string()]);
    assert_eq!(info.write_names(), "\"a\\\"b\",\n");
}

#[test]
fn parse_tree_reports_only_syntax_errors() {
    assert!(ResourceBundleParser::parse_tree("z { Zones { \"x\" } }").is_ok());
    assert!(matches!(
        ResourceBundleParser::parse_tree("z { Zones "),
        Err(RbError::Syntax { .. })
    ));
}

#[test]
fn key_is_compares_whole_keys() {
    assert!(tz_defs::extract::key_is(&chars("trans"), "trans"));
    assert!(!tz_defs::extract::key_is(&chars("trans"), "transPre32"));
    assert!(!tz_defs::extract::key_is(&chars("links"), "trans"));
}

#[test]
fn quoted_key_without_colon_starts_a_table() {
    let info = ResourceBundleParser::parse_to_zone_info("z { \"Names\" { \"A\" } \"Rules\" 5 }");
    assert!(is_schema(&info));
    let info = ResourceBundleParser::parse_to_zone_info("z { \"Names\" { \"A\" } }").unwrap();
    assert_eq!(info.names, vec!["A".to_string()]);
    assert!(is_syntax(&ResourceBundleParser::parse_to_zone_info("z { \"a\" x }")));
    assert!(is_syntax(&ResourceBundleParser::parse_to_zone_info("z { \"a\", b }")));
}
