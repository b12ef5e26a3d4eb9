use bgpkit_commons::prefix::IpPrefix;
use bgpkit_commons::rpki::rpki_client::{
    normalize_asn, normalize_expires, JsonScalar, RawAspaEntry, RawRoaEntry, RawRpkiClientData, RpkiClientMetadata,
    RpkiClientData,
};
use bgpkit_commons::rpki::{expiry_from_i64, expiry_from_u64, Rir, Roa, RpkiTrie, RpkiValidation};
use bgpkit_commons::errors::{BgpkitCommonsError, JsonField};

fn net(s: &str) -> IpPrefix {
    IpPrefix::parse(s).unwrap()
}

fn roa(prefix: &str, asn: u32, max_length: u8) -> Roa {
    Roa {
        prefix: net(prefix),
        asn,
        max_length,
        rir: Some(Rir::APNIC),
        not_before: None,
        not_after: None,
    }
}

fn raw_roa(prefix: &str, max_length: i128, asn: JsonScalar, ta: &str, expires: JsonScalar) -> RawRoaEntry {
    RawRoaEntry {
        prefix: prefix.to_string(),
        max_length: JsonScalar::Integer(max_length),
        asn,
        ta: ta.to_string(),
        expires,
    }
}

#[test]
fn test_multiple_roas_same_prefix() {
    let mut trie = RpkiTrie::new(None);
    let roa1 = roa("192.0.2.0/24", 64496, 24);
    assert!(trie.insert_roa(roa1));
    let roa2 = roa("192.0.2.0/24", 64497, 24);
    assert!(!trie.insert_roa(roa2));
    let roa_dup = Roa { rir: Some(Rir::ARIN), ..roa("192.0.2.0/24", 64496, 24) };
    assert!(!trie.insert_roa(roa_dup));
    let roa3 = roa("192.0.2.0/24", 64496, 28);
    assert!(!trie.insert_roa(roa3));

    let prefix = net("192.0.2.0/24");
    let roas = trie.lookup_by_prefix(&prefix);
    assert_eq!(roas.len(), 3);
    assert_eq!(trie.validate(&prefix, 64496), RpkiValidation::Valid);
    assert_eq!(trie.validate(&prefix, 64497), RpkiValidation::Valid);
    assert_eq!(trie.validate(&prefix, 64498), RpkiValidation::Invalid);
    let unknown_prefix = net("10.0.0.0/8");
    assert_eq!(trie.validate(&unknown_prefix, 64496), RpkiValidation::Unknown);
}

#[test]
fn test_validate_check_expiry_with_time_constraints() {
    let mut trie = RpkiTrie::new(None);
    let past_time = 1600000000i64;
    let current_time = 1700000000i64;
    let future_time = 1800000000i64;
    trie.insert_roa(Roa { not_before: Some(past_time), not_after: Some(future_time), ..roa("192.0.2.0/24", 64496, 24) });
    trie.insert_roa(Roa { not_before: Some(past_time), not_after: Some(past_time), ..roa("198.51.100.0/24", 64497, 24) });
    trie.insert_roa(Roa { not_before: Some(future_time), not_after: None, ..roa("203.0.113.0/24", 64498, 24) });

    let prefix_valid = net("192.0.2.0/24");
    assert_eq!(trie.validate_check_expiry(&prefix_valid, 64496, Some(current_time)), RpkiValidation::Valid);
    let prefix_expired = net("198.51.100.0/24");
    assert_eq!(trie.validate_check_expiry(&prefix_expired, 64497, Some(current_time)), RpkiValidation::Unknown);
    let prefix_future = net("203.0.113.0/24");
    assert_eq!(trie.validate_check_expiry(&prefix_future, 64498, Some(current_time)), RpkiValidation::Unknown);
    let far_future = 1900000000i64;
    assert_eq!(trie.validate_check_expiry(&prefix_future, 64498, Some(far_future)), RpkiValidation::Valid);
    assert_eq!(trie.validate_check_expiry(&prefix_valid, 64499, Some(current_time)), RpkiValidation::Invalid);
}

#[test]
fn insert_twice_keeps_one_record() {
    let mut trie = RpkiTrie::new(None);
    let r = roa("10.0.0.0/8", 64496, 16);
    assert!(trie.insert_roa(r));
    assert!(!trie.insert_roa(r));
    assert_eq!(trie.lookup_by_prefix(&net("10.0.0.0/8")).len(), 1);
}

#[test]
fn covering_match_respects_max_length() {
    let mut trie = RpkiTrie::new(None);
    trie.insert_roa(roa("10.0.0.0/8", 64496, 16));
    let hit = trie.lookup_by_prefix(&net("10.1.0.0/16"));
    assert_eq!(hit.len(), 1);
    assert_eq!(hit[0].asn, 64496);
    assert!(trie.lookup_by_prefix(&net("10.1.0.0/24")).is_empty());
    assert_eq!(trie.validate(&net("10.1.0.0/24"), 64496), RpkiValidation::Unknown);
}

#[test]
fn lookup_collects_every_covering_level() {
    let mut trie = RpkiTrie::new(None);
    trie.insert_roa(roa("10.0.0.0/8", 1, 24));
    trie.insert_roa(roa("10.1.0.0/16", 2, 24));
    trie.insert_roa(roa("10.2.0.0/16", 3, 24));
    let hits = trie.lookup_by_prefix(&net("10.1.2.0/24"));
    let mut asns: Vec<u32> = hits.iter().map(|r| r.asn).collect();
    asns.sort();
    assert_eq!(asns, vec![1, 2]);
}

#[test]
fn family_isolation() {
    let mut trie = RpkiTrie::new(None);
    trie.insert_roa(roa("::/0", 64496, 128));
    trie.insert_roa(roa("::ffff:0.0.0.0/96", 64497, 128));
    assert!(trie.lookup_by_prefix(&net("10.0.0.0/8")).is_empty());
    assert!(trie.lookup_by_prefix(&net("0.0.0.0/0")).is_empty());
    assert_eq!(trie.validate(&net("1.2.3.0/24"), 64496), RpkiValidation::Unknown);
    assert_eq!(trie.lookup_by_prefix(&net("2001:db8::/32")).len(), 1);
}

#[test]
fn multiple_origins_for_one_network() {
    let mut trie = RpkiTrie::new(None);
    trie.insert_roa(roa("203.0.113.0/24", 64500, 24));
    trie.insert_roa(roa("203.0.113.0/24", 64501, 24));
    let p = net("203.0.113.0/24");
    assert_eq!(trie.lookup_by_prefix(&p).len(), 2);
    assert_eq!(trie.validate(&p, 64500), RpkiValidation::Valid);
    assert_eq!(trie.validate(&p, 64501), RpkiValidation::Valid);
    assert_eq!(trie.validate(&p, 64502), RpkiValidation::Invalid);
}

#[test]
fn expired_record_is_unknown_and_unbounded_is_valid() {
    let mut expired = RpkiTrie::new(None);
    expired.insert_roa(Roa { not_after: Some(1000), ..roa("192.0.2.0/24", 64496, 24) });
    let mut open = RpkiTrie::new(None);
    open.insert_roa(roa("192.0.2.0/24", 64496, 24));
    let p = net("192.0.2.0/24");
    assert_eq!(expired.validate_check_expiry(&p, 64496, Some(2000)), RpkiValidation::Unknown);
    assert_eq!(open.validate_check_expiry(&p, 64496, Some(2000)), RpkiValidation::Valid);
    assert_eq!(expired.validate_check_expiry(&p, 64496, None), RpkiValidation::Unknown);
    assert_eq!(open.validate_check_expiry(&p, 64496, None), RpkiValidation::Valid);
    assert_eq!(open.validate_check_expiry(&net("8.8.8.0/24"), 64496, None), RpkiValidation::Unknown);
}

#[test]
fn fixture_end_to_end() {
    let raw = RawRpkiClientData {
        metadata: RpkiClientMetadata::default(),
        roas: vec![raw_roa("1.1.1.0/24", 24, JsonScalar::Integer(13335), "apnic", JsonScalar::Absent)],
        aspas: vec![],
    };
    let data = RpkiClientData::from_raw(raw).unwrap();
    let trie = RpkiTrie::from_rpki_client_data(&data, None);
    assert_eq!(trie.validate(&net("1.1.1.0/24"), 13335), RpkiValidation::Valid);
    assert_eq!(trie.validate(&net("1.1.1.0/24"), 9999), RpkiValidation::Invalid);
    assert_eq!(trie.validate(&net("8.8.8.0/24"), 13335), RpkiValidation::Unknown);
    let roas = trie.lookup_by_prefix(&net("1.1.1.0/24"));
    assert_eq!(roas[0].rir, Some(Rir::APNIC));
    assert_eq!(roas[0].not_after, None);
}

#[test]
fn max_length_below_query_length_does_not_validate() {
    let mut trie = RpkiTrie::new(None);
    trie.insert_roa(roa("192.0.2.0/24", 64496, 16));
    let p = net("192.0.2.0/24");
    assert_eq!(trie.validate(&p, 64496), RpkiValidation::Unknown);
    trie.insert_roa(roa("192.0.2.0/24", 64496, 24));
    assert_eq!(trie.validate(&p, 64496), RpkiValidation::Valid);
    assert_eq!(trie.lookup_by_prefix(&p).len(), 1);
}

#[test]
fn test_deserialize_empty() {
    let raw = RawRpkiClientData {
        metadata: RpkiClientMetadata::default(), roas: vec![], aspas: vec![] };
    let data = RpkiClientData::from_raw(raw).unwrap();
    assert!(data.roas.is_empty());
    assert!(data.aspas.is_empty());
}

#[test]
fn test_deserialize_roa_numeric_asn() {
    let raw = RawRpkiClientData {
        metadata: RpkiClientMetadata::default(),
        roas: vec![raw_roa("192.0.2.0/24", 24, JsonScalar::Integer(64496), "apnic", JsonScalar::Integer(1704067200))],
        aspas: vec![],
    };
    let data = RpkiClientData::from_raw(raw).unwrap();
    assert_eq!(data.roas.len(), 1);
    assert_eq!(data.roas[0].prefix, "192.0.2.0/24");
    assert_eq!(data.roas[0].max_length, 24);
    assert_eq!(data.roas[0].asn, 64496);
    assert_eq!(data.roas[0].ta, "apnic");
}

#[test]
fn test_deserialize_roa_string_asn() {
    let raw = RawRpkiClientData {
        metadata: RpkiClientMetadata::default(),
        roas: vec![raw_roa("1.178.112.0/20", 24, JsonScalar::Text("AS12975".to_string()), "ripencc", JsonScalar::Absent)],
        aspas: vec![],
    };
    let data = RpkiClientData::from_raw(raw).unwrap();
    assert_eq!(data.roas.len(), 1);
    assert_eq!(data.roas[0].prefix, "1.178.112.0/20");
    assert_eq!(data.roas[0].max_length, 24);
    assert_eq!(data.roas[0].asn, 12975);
    assert_eq!(data.roas[0].ta, "ripencc");
}

#[test]
fn test_deserialize_roa_lowercase_asn() {
    let raw = RawRpkiClientData {
        metadata: RpkiClientMetadata::default(),
        roas: vec![raw_roa("10.0.0.0/8", 8, JsonScalar::Text("as64496".to_string()), "arin", JsonScalar::Absent)],
        aspas: vec![],
    };
    let data = RpkiClientData::from_raw(raw).unwrap();
    assert_eq!(data.roas[0].asn, 64496);
}

#[test]
fn test_deserialize_aspa() {
    let raw = RawRpkiClientData {
        metadata: RpkiClientMetadata::default(),
        roas: vec![],
        aspas: vec![RawAspaEntry {
            customer: JsonScalar::Integer(64496),
            expires: JsonScalar::Integer(1704067200),
            providers: vec![JsonScalar::Integer(64497), JsonScalar::Integer(64498)],
        }],
    };
    let data = RpkiClientData::from_raw(raw).unwrap();
    assert_eq!(data.aspas.len(), 1);
    assert_eq!(data.aspas[0].customer_asid, 64496);
    assert_eq!(data.aspas[0].providers, vec![64497, 64498]);
}

#[test]
fn asn_forms_normalise_alike() {
    let asn = |v: JsonScalar| normalize_asn(JsonField::Asn, &v);
    let text = |t: &str| JsonScalar::Text(t.to_string());
    let invalid = |t: &str| -> Result<u32, BgpkitCommonsError> { Err(BgpkitCommonsError::InvalidAsn { field: JsonField::Asn, value: text(t) }) };
    assert_eq!(asn(JsonScalar::Integer(64496)), Ok(64496));
    assert_eq!(asn(text("AS64496")), Ok(64496));
    assert_eq!(asn(text("as64496")), Ok(64496));
    assert_eq!(asn(text("64496")), invalid("64496"));
    assert_eq!(asn(text("AS+64496")), invalid("AS+64496"));
    assert_eq!(asn(text("As64496")), invalid("As64496"));
    assert_eq!(asn(text("AS")), invalid("AS"));
    assert_eq!(asn(text("ASX")), invalid("ASX"));
    assert_eq!(asn(text("AS4294967296")), invalid("AS4294967296"));
    assert_eq!(asn(text("AS4294967295")), Ok(4294967295));
    assert_eq!(
        asn(JsonScalar::Integer(4294967296)),
        Err(BgpkitCommonsError::AsnOutOfRange { field: JsonField::Asn, value: JsonScalar::Integer(4294967296) })
    );
    assert_eq!(
        asn(JsonScalar::Integer(-1)),
        Err(BgpkitCommonsError::AsnOutOfRange { field: JsonField::Asn, value: JsonScalar::Integer(-1) })
    );
    assert_eq!(
        asn(JsonScalar::Other),
        Err(BgpkitCommonsError::UnexpectedValue { field: JsonField::Asn, value: JsonScalar::Other })
    );

    let a = RawRpkiClientData {
        metadata: RpkiClientMetadata::default(),
        roas: vec![raw_roa("192.0.2.0/24", 24, JsonScalar::Integer(64496), "arin", JsonScalar::Absent)],
        aspas: vec![],
    };
    let b = RawRpkiClientData {
        metadata: RpkiClientMetadata::default(),
        roas: vec![raw_roa("192.0.2.0/24", 24, JsonScalar::Text("AS64496".to_string()), "arin", JsonScalar::Absent)],
        aspas: vec![],
    };
    let ta = RpkiTrie::from_rpki_client_data(&RpkiClientData::from_raw(a).unwrap(), None);
    let tb = RpkiTrie::from_rpki_client_data(&RpkiClientData::from_raw(b).unwrap(), None);
    let p = net("192.0.2.0/24");
    assert_eq!(ta.lookup_by_prefix(&p), tb.lookup_by_prefix(&p));
}

#[test]
fn expiry_fields() {
    assert_eq!(
        normalize_expires(&JsonScalar::Integer(-5)),
        Err(BgpkitCommonsError::NegativeTimestamp { field: JsonField::Expires, value: JsonScalar::Integer(-5) })
    );
    assert_eq!(normalize_expires(&JsonScalar::Absent), Ok(0));
    assert_eq!(normalize_expires(&JsonScalar::Integer(1704067200)), Ok(1704067200));
    assert_eq!(
        normalize_expires(&JsonScalar::Text("1".to_string())),
        Err(BgpkitCommonsError::UnexpectedValue {
            field: JsonField::Expires,
            value: JsonScalar::Text("1".to_string())
        })
    );
}

#[test]
fn malformed_provider_fails_whole_document() {
    let raw = RawRpkiClientData {
        metadata: RpkiClientMetadata::default(),
        roas: vec![],
        aspas: vec![RawAspaEntry {
            customer: JsonScalar::Text("AS64496".to_string()),
            expires: JsonScalar::Absent,
            providers: vec![JsonScalar::Text("AS64497".to_string()), JsonScalar::Text("x".to_string())],
        }],
    };
    assert_eq!(
        RpkiClientData::from_raw(raw).err(),
        Some(BgpkitCommonsError::InvalidAsn { field: JsonField::Provider, value: JsonScalar::Text("x".to_string()) })
    );
}

#[test]
fn merge_skips_bad_prefixes_and_keeps_first_aspa() {
    let raw = RawRpkiClientData {
        metadata: RpkiClientMetadata::default(),
        roas: vec![
            raw_roa("not a prefix", 24, JsonScalar::Integer(1), "arin", JsonScalar::Absent),
            raw_roa("192.0.2.0/24", 24, JsonScalar::Integer(2), "RIPE", JsonScalar::Integer(1704067200)),
        ],
        aspas: vec![
            RawAspaEntry { customer: JsonScalar::Integer(10), expires: JsonScalar::Absent, providers: vec![JsonScalar::Integer(1)] },
            RawAspaEntry { customer: JsonScalar::Integer(10), expires: JsonScalar::Absent, providers: vec![JsonScalar::Integer(2)] },
            RawAspaEntry { customer: JsonScalar::Integer(11), expires: JsonScalar::Absent, providers: vec![] },
        ],
    };
    let data = RpkiClientData::from_raw(raw).unwrap();
    let trie = RpkiTrie::from_rpki_client_data(&data, None);
    let roas = trie.lookup_by_prefix(&net("192.0.2.0/24"));
    assert_eq!(roas.len(), 1);
    assert_eq!(roas[0].rir, Some(Rir::RIPENCC));
    assert_eq!(roas[0].not_after, Some(1704067200));
    assert_eq!(trie.aspas().len(), 2);
    assert_eq!(trie.aspas()[0].providers, vec![1]);
    assert_eq!(trie.aspas()[1].customer_asn, 11);
    assert!(trie.is_loaded());
    assert_eq!(trie.loading_status(), "RPKI data loaded");
    assert_eq!(RpkiTrie::new(None).loading_status(), "RPKI data not loaded");
}

#[test]
fn prefixes_parse_and_clear_host_bits() {
    let p = net("10.1.2.3/8");
    assert_eq!(p.addr(), 10u128 << 24);
    assert_eq!(p.prefix_len(), 8);
    assert!(!p.is_v6());
    assert!(IpPrefix::parse("10.0.0.0/33").is_none());
    assert!(IpPrefix::parse("hello").is_none());
    let v6 = net("2001:db8::1/32");
    assert!(v6.is_v6());
    assert_eq!(v6.addr(), 0x2001_0db8u128 << 96);
    assert_eq!(IpPrefix::new(false, 1u128 << 32, 8), None);
    assert_eq!(IpPrefix::new(true, 1, 0).unwrap().addr(), 0);
}

#[test]
fn rir_tags() {
    assert_eq!(Rir::from_text("RIPE"), Some(Rir::RIPENCC));
    assert_eq!(Rir::from_text("ApNiC"), Some(Rir::APNIC));
    assert_eq!(Rir::from_text("ripencc"), None);
    assert_eq!(Rir::LACNIC.name(), "LACNIC");
    assert_eq!(Rir::ARIN.to_ripe_ftp_root_url(), "https://ftp.ripe.net/rpki/arin.tal");
}

#[test]
fn expiry_outside_chrono_range_is_absent() {
    assert_eq!(expiry_from_u64(1704067200), Some(1704067200));
    assert_eq!(expiry_from_u64(9223372036854775808), None);
    assert_eq!(expiry_from_u64(18446744073709551615), None);
    assert_eq!(expiry_from_u64(0), None);
    assert_eq!(expiry_from_u64(9223372036854775807), None);
}

#[test]
fn test_deserialize_ripe_metadata() {
    let raw = RawRpkiClientData {
        metadata: RpkiClientMetadata {
            generated: Some(1717215759),
            generated_time: Some("2024-06-01T04:22:39Z".to_string()),
            ..RpkiClientMetadata::default()
        },
        roas: vec![],
        aspas: vec![],
    };
    let data = RpkiClientData::from_raw(raw).unwrap();
    assert_eq!(data.metadata.generated, Some(1717215759));
    assert_eq!(data.metadata.generated_time, Some("2024-06-01T04:22:39Z".to_string()));
}

#[test]
fn lookup_lists_each_record_once() {
    let mut trie = RpkiTrie::new(None);
    trie.insert_roa(roa("0.0.0.0/0", 1, 32));
    trie.insert_roa(roa("0.0.0.0/0", 1, 32));
    trie.insert_roa(roa("10.0.0.0/8", 2, 32));
    trie.insert_roa(roa("10.0.0.0/8", 3, 32));
    trie.insert_roa(roa("10.1.0.0/16", 4, 32));
    let hits = trie.lookup_by_prefix(&net("10.1.2.0/24"));
    let mut asns: Vec<u32> = hits.iter().map(|r| r.asn).collect();
    asns.sort();
    assert_eq!(asns, vec![1, 2, 3, 4]);
}

#[test]
fn aspas_appended_in_document_order() {
    let aspa = |c: i128, p: i128| RawAspaEntry {
        customer: JsonScalar::Integer(c),
        expires: JsonScalar::Absent,
        providers: vec![JsonScalar::Integer(p)],
    };
    let raw = RawRpkiClientData {
        metadata: RpkiClientMetadata::default(),
        roas: vec![],
        aspas: vec![aspa(30, 1), aspa(10, 2), aspa(30, 3), aspa(20, 4)],
    };
    let data = RpkiClientData::from_raw(raw).unwrap();
    let mut trie = RpkiTrie::new(None);
    trie.merge_rpki_client_data(&data);
    let customers: Vec<u32> = trie.aspas().iter().map(|a| a.customer_asn).collect();
    assert_eq!(customers, vec![30, 10, 20]);
    assert_eq!(trie.aspas()[0].providers, vec![1]);
    assert_eq!(trie.aspas()[0].expires, None);
}

#[test]
fn chrono_range_bounds() {
    assert_eq!(expiry_from_i64(8210266876799), Some(8210266876799));
    assert_eq!(expiry_from_i64(8210266876800), None);
    assert_eq!(expiry_from_i64(-8334601228800), Some(-8334601228800));
    assert_eq!(expiry_from_i64(-8334601228801), None);
}
