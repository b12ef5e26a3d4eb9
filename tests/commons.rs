use bgpkit_commons::as2rel::{As2relBgpkit, As2relEntry, AsRelationship};
use bgpkit_commons::asinfo::as2org::{As2org, As2orgAsRecord, As2orgOrgRecord};
use bgpkit_commons::asinfo::sibling_orgs::SiblingOrgsUtils;
use bgpkit_commons::asinfo::{parse_asn_line, AsInfoUtils};
use bgpkit_commons::bogons::{convert_to_range, BogonAsn, BogonPrefix, Bogons};
use bgpkit_commons::commons::BgpkitCommons;
use bgpkit_commons::countries::{Countries, Country};
use bgpkit_commons::errors::{BgpkitCommonsError, Module};
use bgpkit_commons::mrt_collectors::{MrtCollector, MrtCollectorPeer, MrtCollectorProject, PeerAddress};
use bgpkit_commons::prefix::IpPrefix;
use bgpkit_commons::rpki::rpki_client::{JsonScalar, RawRoaEntry, RawRpkiClientData, RpkiClientMetadata, RpkiClientData};
use bgpkit_commons::rpki::RpkiValidation;
use bgpkit_commons::time::Date;

fn country(code: &str, code3: &str, name: &str) -> Country {
    Country {
        code: code.to_string(),
        code3: code3.to_string(),
        name: name.to_string(),
        capital: "C".to_string(),
        continent: "EU".to_string(),
        ltd: Some(".x".to_string()),
        neighbors: vec!["AA".to_string()],
    }
}

#[test]
fn countries_lookups() {
    let cs = Countries::new(vec![
        country("US", "USA", "United States"),
        country("GB", "GBR", "United Kingdom"),
        country("DE", "DEU", "Germany"),
        country("US", "USA", "United States of America"),
    ]);
    assert_eq!(cs.all_countries().len(), 3);
    assert_eq!(cs.lookup_by_code("US").unwrap().name, "United States of America");
    assert!(cs.lookup_by_code("FR").is_none());
    let united = cs.lookup_by_name("UNITED");
    assert_eq!(united.len(), 2);
    assert_eq!(cs.lookup_by_name("germ")[0].code, "DE");
    assert_eq!(cs.lookup_by_name("germ")[0].neighbors, vec!["AA".to_string()]);
}

#[test]
fn commons_reports_unloaded_modules() {
    let commons = BgpkitCommons::new();
    assert_eq!(commons.country_all().err(), Some(BgpkitCommonsError::ModuleNotLoaded(Module::Countries)));
    assert_eq!(commons.rpki_validate(1, "1.1.1.0/24"), Err(BgpkitCommonsError::ModuleNotLoaded(Module::Rpki)));
    assert_eq!(commons.bogons_match("10.0.0.0/8"), None);
    assert_eq!(commons.bogons_match_asn(0), None);
    assert!(commons.as2rel_lookup(1, 2).is_err());
    let status = commons.loading_status();
    assert_eq!(status.len(), 7);
    assert_eq!(status[3], ("asinfo", "ASInfo data not loaded"));
    assert_eq!(status[5], ("mrt_collectors", "MRT collectors data not loaded"));
    assert_eq!(status[6], ("mrt_collector_peers", "MRT collector peers data not loaded"));
    assert_eq!(commons.asinfo_are_siblings(1, 2), Err(BgpkitCommonsError::ModuleNotLoaded(Module::Asinfo)));
    assert_eq!(status[0], ("countries", "Countries data not loaded"));
    assert_eq!(status[2], ("rpki", "RPKI data not loaded"));
}

fn geonames_line(code: &str, code3: &str, name: &str, ltd: &str, neighbours: &str) -> String {
    let mut f: Vec<String> = vec![String::new(); 19];
    f[0] = code.to_string();
    f[1] = code3.to_string();
    f[4] = name.to_string();
    f[5] = "Capital".to_string();
    f[8] = "NA".to_string();
    f[9] = ltd.to_string();
    f[17] = neighbours.to_string();
    f.join("\t")
}

#[test]
fn countries_from_file_lines() {
    let lines = vec![
        "# ISO\tISO3".to_string(),
        "   ".to_string(),
        geonames_line("US", "USA", "United States", ".us", "CA,MX"),
        geonames_line("AQ", "ATA", "Antarctica", "", ""),
    ];
    let cs = Countries::from_lines(&lines).unwrap();
    let us = cs.lookup_by_code("US").unwrap();
    assert_eq!(us.neighbors, vec!["CA".to_string(), "MX".to_string()]);
    assert_eq!(us.ltd, Some(".us".to_string()));
    assert_eq!(us.continent, "NA");
    let aq = cs.lookup_by_code("AQ").unwrap();
    assert_eq!(aq.ltd, None);
    assert_eq!(aq.neighbors, vec!["".to_string()]);
    let bad = vec!["US\tUSA".to_string()];
    assert_eq!(Countries::from_lines(&bad).err().map(|_| ()), Some(()));
}

#[test]
fn commons_countries() {
    let mut commons = BgpkitCommons::new();
    let lines = vec![
        geonames_line("US", "USA", "United States", ".us", "CA,MX"),
        geonames_line("CA", "CAN", "Canada", ".ca", "US"),
    ];
    assert_eq!(commons.load_countries(&lines), Ok(()));
    assert_eq!(commons.load_countries(&vec!["x".to_string()]), Err(BgpkitCommonsError::MissingFields("x".to_string())));
    assert_eq!(commons.country_all().unwrap().len(), 2);
    assert_eq!(commons.country_by_code("CA").unwrap().unwrap().name, "Canada");
    assert!(commons.country_by_code3("CAN").unwrap().is_none());
    assert_eq!(commons.country_by_name("can").unwrap().len(), 1);
    assert_eq!(commons.loading_status()[0], ("countries", "Countries data loaded"));
}

#[test]
fn commons_rpki() {
    let mut commons = BgpkitCommons::new();
    let raw = RawRpkiClientData {
        metadata: RpkiClientMetadata::default(),
        roas: vec![RawRoaEntry {
            prefix: "1.1.1.0/24".to_string(),
            max_length: JsonScalar::Integer(24),
            asn: JsonScalar::Integer(13335),
            ta: "apnic".to_string(),
            expires: JsonScalar::Integer(1),
        }],
        aspas: vec![],
    };
    let data = RpkiClientData::from_raw(raw).unwrap();
    commons.load_rpki(&vec![data], None);
    assert_eq!(commons.rpki_validate(13335, "1.1.1.0/24"), Ok(RpkiValidation::Valid));
    assert_eq!(commons.rpki_validate(9999, "1.1.1.0/24"), Ok(RpkiValidation::Invalid));
    assert_eq!(commons.rpki_validate(13335, "8.8.8.0/24"), Ok(RpkiValidation::Unknown));
    assert_eq!(commons.rpki_validate(13335, "bad"), Err(BgpkitCommonsError::InvalidPrefix("bad".to_string())));
    assert_eq!(commons.rpki_validate_check_expiry(13335, "1.1.1.0/24", Some(100)), Ok(RpkiValidation::Unknown));
    assert_eq!(commons.rpki_validate_check_expiry(13335, "1.1.1.0/24", Some(1)), Ok(RpkiValidation::Valid));
    assert_eq!(commons.rpki_lookup_by_prefix("1.1.1.0/24").unwrap().len(), 1);
}

#[test]
fn commons_bogons() {
    let mut commons = BgpkitCommons::new();
    commons.load_bogons(Bogons {
        prefixes: vec![BogonPrefix {
            prefix: IpPrefix::parse("10.0.0.0/8").unwrap(),
            description: "private".to_string(),
            rfc_urls: vec![],
            allocation_date: Date { year: 1996, month: 2, day: 1 },
            termination_date: None,
            source: true,
            destination: true,
            forwardable: true,
            global: false,
            reserved: false,
        }],
        asns: vec![BogonAsn { asn_range: (64512, 65534), description: "private".to_string(), rfc_urls: vec![] }],
    });
    assert_eq!(commons.bogons_match("10.1.0.0/16"), Some(true));
    assert_eq!(commons.bogons_match("11.0.0.0/8"), Some(false));
    assert_eq!(commons.bogons_match("64512"), Some(true));
    assert_eq!(commons.bogons_match("AS64512"), Some(false));
    assert_eq!(commons.bogons_match_prefix("10.0.0.0/8"), Some(true));
    assert_eq!(commons.bogons_match_prefix("nope"), None);
    assert_eq!(commons.bogons_match_asn(65534), Some(true));
    assert_eq!(commons.bogon_is_bogon_asn(65535), Some(false));
    assert_eq!(commons.bogon_matches_str("10.0.0.1/32"), Some(true));
    assert_eq!(commons.bogon_is_bogon_prefix("192.168.0.0/16"), Some(false));
    assert_eq!(commons.loading_status()[1], ("bogons", "Bogons data loaded"));
}

#[test]
fn commons_as2rel() {
    let mut commons = BgpkitCommons::new();
    let v4 = vec![
        As2relEntry { asn1: 1, asn2: 2, paths_count: 10, peers_count: 5, rel: AsRelationship::ProviderCustomer },
        As2relEntry { asn1: 1, asn2: 2, paths_count: 11, peers_count: 7, rel: AsRelationship::ProviderCustomer },
        As2relEntry { asn1: 2, asn2: 3, paths_count: 1, peers_count: 9, rel: AsRelationship::PeerPeer },
    ];
    commons.load_as2rel(&v4, &vec![]);
    let (a, b) = commons.as2rel_lookup(1, 2).unwrap();
    assert_eq!(a.len(), 1);
    assert_eq!(a[0].rel, AsRelationship::ProviderCustomer);
    assert_eq!(a[0].peers_count, 5);
    assert_eq!(a[0].max_peer_count, 9);
    assert!(b.is_empty());
    let (r, _) = commons.as2rel_lookup_pair(2, 1).unwrap();
    assert_eq!(r[0].rel, AsRelationship::CustomerProvider);
    let (p, _) = commons.as2rel_lookup_pair(3, 2).unwrap();
    assert_eq!(p[0].rel, AsRelationship::PeerPeer);
    assert_eq!(AsRelationship::from_code(-1), Some(AsRelationship::ProviderCustomer));
    assert_eq!(AsRelationship::from_code(2), None);
    assert_eq!(AsRelationship::CustomerProvider.code(), "cp");
    let t = As2relBgpkit::new(&vec![], &vec![]);
    assert!(!t.is_loaded());
}

#[test]
fn asn_ranges() {
    assert_eq!(convert_to_range("64512-65534"), Ok((64512, 65534)));
    assert_eq!(convert_to_range("23456"), Ok((23456, 23456)));
    assert_eq!(convert_to_range("1-2-3"), Ok((1, 2)));
    assert_eq!(convert_to_range("x-2"), Err(BgpkitCommonsError::InvalidAsnRange("x-2".to_string())));
    assert_eq!(convert_to_range("1-"), Err(BgpkitCommonsError::InvalidAsnRange("1-".to_string())));
}

fn as_rec(asn: &str, name: &str, org: &str) -> As2orgAsRecord {
    As2orgAsRecord { asn: asn.to_string(), name: name.to_string(), org_id: org.to_string(), source: "ARIN".to_string() }
}

fn org_rec(id: &str, name: &str) -> As2orgOrgRecord {
    As2orgOrgRecord { org_id: id.to_string(), name: name.to_string(), country: "US".to_string(), source: "ARIN".to_string() }
}

#[test]
fn asn_name_lines() {
    let (asn, name, country) = parse_asn_line("3333 RIPE-NCC-AS Reseaux IP Europeens Network Coordination Centre (RIPE NCC), NL").unwrap();
    assert_eq!(asn, 3333);
    assert_eq!(name, "RIPE-NCC-AS Reseaux IP Europeens Network Coordination Centre (RIPE NCC)");
    assert_eq!(country, "NL");
    let (_, name2, country2) = parse_asn_line("1 A, B, C").unwrap();
    assert_eq!(name2, "A, B");
    assert_eq!(country2, "C");
    assert!(parse_asn_line("nospace").is_none());
    assert!(parse_asn_line("12 no comma").is_none());
    assert!(parse_asn_line("x A, B").is_none());
}

#[test]
fn asinfo_siblings() {
    let as2org = As2org::new(
        &vec![as_rec("15169", "GOOGLE", "GOGL"), as_rec("36040", "YOUTUBE", "GOGL"), as_rec("3356", "LEVEL3", "LVLT"), as_rec("209", "CENTURYLINK", "CTL")],
        &vec![org_rec("GOGL", "Google LLC"), org_rec("LVLT", "Level 3"), org_rec("CTL", "Lumen")],
    );
    let lines = vec![
        "15169 GOOGLE, US".to_string(),
        "36040 YOUTUBE, US".to_string(),
        "3356 LEVEL3, US".to_string(),
        "209 CENTURYLINK-US-LEGACY-QWEST, US".to_string(),
        "13335 CLOUDFLARENET, US".to_string(),
    ];
    let siblings = SiblingOrgsUtils::new(&vec!["LVLT CTL".to_string()]);
    let mut commons = BgpkitCommons::new();
    commons.load_asinfo(&lines, Some(&as2org), None, Some(siblings));
    assert_eq!(commons.asinfo_are_siblings(15169, 36040), Ok(true));
    assert_eq!(commons.asinfo_are_siblings(3356, 209), Ok(true));
    assert_eq!(commons.asinfo_are_siblings(15169, 3356), Ok(false));
    assert_eq!(commons.asinfo_are_siblings(15169, 13335), Ok(false));
    assert_eq!(commons.asinfo_are_siblings(15169, 99), Ok(false));
    assert_eq!(commons.loading_status()[3], ("asinfo", "ASInfo data loaded"));

    let utils = AsInfoUtils::new(&lines, Some(&as2org), None, None);
    let google = utils.get(15169).unwrap();
    assert_eq!(google.get_preferred_name(), "Google LLC");
    assert_eq!(utils.get(13335).unwrap().get_preferred_name(), "CLOUDFLARENET");
    assert!(utils.get(1).is_none());

    let mut no_org = BgpkitCommons::new();
    no_org.load_asinfo(&lines, None, None, None);
    assert_eq!(no_org.asinfo_are_siblings(15169, 36040), Err(BgpkitCommonsError::ModuleNotConfigured(Module::Asinfo)));
}

#[test]
fn mrt_collectors_and_peers() {
    let rv2 = MrtCollector::from_routeviews("route-views2", "US", 1000, None).unwrap();
    assert_eq!(rv2.data_url, "http://archive.routeviews.org/bgpdata");
    let rv3 = MrtCollector::from_routeviews("route-views3", "US", 2000, Some(3000)).unwrap();
    assert_eq!(rv3.data_url, "http://archive.routeviews.org/route-views3/bgpdata");
    assert!(MrtCollector::from_routeviews("route-views", "US", 0, None).is_none());
    let rrc00 = MrtCollector::from_ris("rrc00", "NL", 500, None);
    assert_eq!(rrc00.data_url, "https://data.ris.ripe.net/rrc00");
    assert_eq!(rrc00.project, MrtCollectorProject::RipeRis);
    assert_eq!(MrtCollectorProject::RouteViews.name(), "routeviews");

    let mut commons = BgpkitCommons::new();
    assert_eq!(commons.mrt_collectors_all(), Err(BgpkitCommonsError::ModuleNotLoaded(Module::MrtCollectors)));
    assert!(commons.mrt_collectors_by_country("US").is_none());
    commons.load_mrt_collectors(vec![rv2, rv3, rrc00]);
    assert_eq!(commons.mrt_collectors_all().unwrap().len(), 3);
    assert_eq!(commons.mrt_collectors_by_name("rrc00").unwrap().unwrap().country, "NL");
    assert!(commons.mrt_collectors_by_name("nope").unwrap().is_none());
    assert_eq!(commons.mrt_collectors_by_country("US").unwrap().len(), 2);

    let peer = |v4: u32, v6: u32| MrtCollectorPeer {
        date: Date { year: 2024, month: 1, day: 1 },
        ip: PeerAddress { v6: false, addr: 1 },
        asn: 1,
        collector: "rrc00".to_string(),
        num_v4_pfxs: v4,
        num_v6_pfxs: v6,
        num_connected_asns: 0,
    };
    assert!(peer(700000, 0).is_full_feed());
    assert!(peer(0, 100000).is_full_feed());
    assert!(!peer(699999, 99999).is_full_feed());
    commons.load_mrt_collector_peers(vec![peer(700000, 0), peer(1, 1)]);
    assert_eq!(commons.mrt_collector_peers_all().unwrap().len(), 2);
    assert_eq!(commons.mrt_collector_peers_full_feed().unwrap().len(), 1);
    assert_eq!(commons.loading_status()[5], ("mrt_collectors", "MRT collectors data loaded"));
}
