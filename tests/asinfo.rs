use bgpkit_commons::asinfo::as2org::{
    fix_latin1_misinterpretation, As2org, As2orgAsInfo, As2orgAsRecord, As2orgOrgRecord,
};
use bgpkit_commons::asinfo::peeringdb::{Peeringdb, PeeringdbData, PeeringdbNet};
use bgpkit_commons::asinfo::sibling_orgs::SiblingOrgsUtils;

#[test]
fn test_fix_latin1_misinterpretation() {
    let normal = "Hello World";
    assert_eq!(fix_latin1_misinterpretation(normal), normal);
    assert_eq!(fix_latin1_misinterpretation(""), "");
    let ascii_only = "ACME Corporation Inc.";
    assert_eq!(fix_latin1_misinterpretation(ascii_only), ascii_only);
    let special = "Test @#$%^&*() 123";
    assert_eq!(fix_latin1_misinterpretation(special), special);
}

#[test]
fn latin1_repair() {
    assert_eq!(fix_latin1_misinterpretation("Soci\u{c3}\u{a9}t\u{c3}\u{a9}"), "Soci\u{e9}t\u{e9}");
    assert_eq!(fix_latin1_misinterpretation("\u{c3}A"), "\u{c3}A");
    assert_eq!(fix_latin1_misinterpretation("end\u{c3}"), "end\u{c3}");
}

#[test]
fn test_as2org_as_info_struct() {
    let info = As2orgAsInfo {
        asn: 12345,
        name: "Test AS".to_string(),
        country_code: "US".to_string(),
        org_id: "ORG-TEST".to_string(),
        org_name: "Test Organization".to_string(),
        source: "ARIN".to_string(),
    };
    assert_eq!(info.asn, 12345);
    assert_eq!(info.name, "Test AS");
    assert_eq!(info.country_code, "US");
    assert_eq!(info.org_id, "ORG-TEST");
    assert_eq!(info.org_name, "Test Organization");
    assert_eq!(info.source, "ARIN");
}

#[test]
fn test_get_latest_file_url() {
    let url = As2org::get_latest_file_url();
    assert!(url.starts_with("https://publicdata.caida.org/datasets/as-organizations/"));
    assert!(url.ends_with(".as-org2info.jsonl.gz"));
}

fn as_rec(asn: &str, name: &str, org: &str) -> As2orgAsRecord {
    As2orgAsRecord { asn: asn.to_string(), name: name.to_string(), org_id: org.to_string(), source: "ARIN".to_string() }
}

fn org_rec(id: &str, name: &str, country: &str) -> As2orgOrgRecord {
    As2orgOrgRecord { org_id: id.to_string(), name: name.to_string(), country: country.to_string(), source: "ARIN".to_string() }
}

#[test]
fn as2org_lookups() {
    let ases = vec![
        as_rec("15169", "GOOGLE", "GOGL-ARIN"),
        as_rec("36040", "YOUTUBE", "GOGL-ARIN"),
        as_rec("13335", "CLOUDFLARENET", "CLOUD14-ARIN"),
        as_rec("notanumber", "X", "GOGL-ARIN"),
        as_rec("64512", "NOORG", "MISSING"),
    ];
    let orgs = vec![org_rec("GOGL-ARIN", "Google LLC", "US"), org_rec("CLOUD14-ARIN", "Cloudflare, Inc.", "US")];
    let db = As2org::new(&ases, &orgs);
    let info = db.get_as_info(15169).unwrap();
    assert_eq!(info.org_name, "Google LLC");
    assert_eq!(info.country_code, "US");
    assert_eq!(info.name, "GOOGLE");
    assert!(db.get_as_info(999999999).is_none());
    assert!(db.get_as_info(64512).is_none());
    let sib = db.get_siblings(15169).unwrap();
    assert_eq!(sib.len(), 2);
    assert!(db.get_siblings(999999999).is_none());
    assert_eq!(db.get_siblings(64512).unwrap().len(), 0);
    assert!(db.are_siblings(15169, 36040));
    assert!(!db.are_siblings(15169, 13335));
    assert!(!db.are_siblings(15169, 999999999));
    assert!(db.are_siblings(15169, 15169));
}

fn cloudflare() -> PeeringdbData {
    PeeringdbData {
        asn: 13335,
        name: Some("Cloudflare".to_string()),
        name_long: Some("Cloudflare, Inc.".to_string()),
        aka: None,
        irr_as_set: Some("AS-CLOUDFLARE".to_string()),
        website: Some("https://cloudflare.com".to_string()),
    }
}

#[test]
fn test_peeringdb_data_struct() {
    let data = PeeringdbData {
        asn: 13335,
        name: Some("Cloudflare".to_string()),
        name_long: Some("Cloudflare, Inc.".to_string()),
        aka: Some("CF".to_string()),
        irr_as_set: Some("AS-CLOUDFLARE".to_string()),
        website: Some("https://cloudflare.com".to_string()),
    };
    assert_eq!(data.asn, 13335);
    assert_eq!(data.name, Some("Cloudflare".to_string()));
    assert_eq!(data.name_long, Some("Cloudflare, Inc.".to_string()));
    assert_eq!(data.aka, Some("CF".to_string()));
    assert_eq!(data.irr_as_set, Some("AS-CLOUDFLARE".to_string()));
    assert_eq!(data.website, Some("https://cloudflare.com".to_string()));
}

#[test]
fn test_peeringdb_data_with_none_fields() {
    let data = PeeringdbData { asn: 12345, name: None, name_long: None, aka: None, irr_as_set: None, website: None };
    assert_eq!(data.asn, 12345);
    assert!(data.name.is_none());
    assert!(data.name_long.is_none());
    assert!(data.aka.is_none());
    assert!(data.irr_as_set.is_none());
    assert!(data.website.is_none());
}

fn test_net() -> PeeringdbNet {
    PeeringdbNet {
        id: 1,
        name: Some("Test Network".to_string()),
        name_long: Some("Test Network Inc.".to_string()),
        aka: None,
        asn: Some(12345),
        org_id: Some(100),
        irr_as_set: Some("AS-TEST".to_string()),
        website: Some("https://test.com".to_string()),
        notes: None,
        fac_count: Some(5),
        ix_count: Some(3),
        policy_contracts: None,
        policy_general: Some("Open".to_string()),
        policy_locations: None,
        policy_ratio: None,
        policy_url: None,
        info_ipv6: Some(true),
        info_multicast: Some(false),
        info_never_via_route_servers: Some(false),
        info_prefixes4: Some(100),
        info_prefixes6: Some(50),
        info_ratio: None,
        info_scope: Some("Global".to_string()),
        info_traffic: None,
        info_type: Some("NSP".to_string()),
        info_types: None,
        info_unicast: Some(true),
        rir_status: None,
        status: Some("ok".to_string()),
        status_dashboard: None,
        created: Some("2020-01-01".to_string()),
        updated: Some("2024-01-01".to_string()),
        route_server: None,
        looking_glass: None,
    }
}

#[test]
fn test_peeringdb_net_struct() {
    let net = test_net();
    assert_eq!(net.id, 1);
    assert_eq!(net.asn, Some(12345));
    assert_eq!(net.name, Some("Test Network".to_string()));
    assert_eq!(net.info_prefixes4, Some(100));
}

#[test]
fn test_peeringdb_struct_from_hashmap() {
    let google = PeeringdbData {
        asn: 15169,
        name: Some("Google".to_string()),
        name_long: Some("Google LLC".to_string()),
        aka: None,
        irr_as_set: Some("AS-GOOGLE".to_string()),
        website: Some("https://google.com".to_string()),
    };
    let peeringdb = Peeringdb::from_records(&vec![cloudflare(), google]);
    let cf_data = peeringdb.get_data(13335);
    assert!(cf_data.is_some());
    assert_eq!(cf_data.unwrap().name, Some("Cloudflare".to_string()));
    let google_data = peeringdb.get_data(15169);
    assert!(google_data.is_some());
    assert_eq!(google_data.unwrap().name, Some("Google".to_string()));
    let nonexistent = peeringdb.get_data(999999);
    assert!(nonexistent.is_none());
    assert!(peeringdb.contains(13335));
    assert!(peeringdb.contains(15169));
    assert!(!peeringdb.contains(999999));
    assert_eq!(peeringdb.len(), 2);
    assert!(!peeringdb.is_empty());
    let asns = peeringdb.get_all_asns();
    assert_eq!(asns.len(), 2);
    assert!(asns.contains(&13335));
    assert!(asns.contains(&15169));
}

#[test]
fn test_peeringdb_empty() {
    let peeringdb = Peeringdb::from_records(&vec![]);
    assert!(peeringdb.is_empty());
    assert_eq!(peeringdb.len(), 0);
    assert!(peeringdb.get_all_asns().is_empty());
    assert!(peeringdb.get_data(12345).is_none());
    assert!(!peeringdb.contains(12345));
}

#[test]
fn peeringdb_keeps_first_network_per_asn() {
    let mut second = test_net();
    second.name = Some("Second".to_string());
    let mut no_asn = test_net();
    no_asn.asn = None;
    let db = Peeringdb::new(&vec![test_net(), second, no_asn]);
    assert_eq!(db.len(), 1);
    assert_eq!(db.get_data(12345).unwrap().name, Some("Test Network".to_string()));
    assert_eq!(db.get_data(12345).unwrap().irr_as_set, Some("AS-TEST".to_string()));
}

#[test]
fn test_sibling_orgs() {
    let lines = vec![
        "# sibling organisations".to_string(),
        "".to_string(),
        "GC-494-ARIN ORG-GCI2-RIPE".to_string(),
        "COGC-ARIN ORG-COGE1-RIPE".to_string(),
    ];
    let utils = SiblingOrgsUtils::new(&lines);
    assert!(utils.are_sibling_orgs("GC-494-ARIN", "ORG-GCI2-RIPE"));
    assert!(utils.are_sibling_orgs("Gc-494-ArIn", "OrG-gCi2-RiPe"));
    assert!(!utils.are_sibling_orgs("GC-494-ARIN", "COGC-ARIN"));
}

#[test]
fn sibling_groups_last_line_wins() {
    let lines = vec!["A B".to_string(), "A C".to_string()];
    let utils = SiblingOrgsUtils::new(&lines);
    assert!(utils.are_sibling_orgs("a", "c"));
    assert!(!utils.are_sibling_orgs("a", "b"));
    assert!(utils.are_sibling_orgs("b", "a"));
    assert!(!utils.are_sibling_orgs("z", "z"));
}
