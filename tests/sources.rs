use bgpkit_commons::rpki::sources::{
    earliest_rpkiviews_file, file_from_fields, is_directory_member, is_target_member, list_ripe_files,
    listing_full, member_result, ripe_file_url, rpki_client_member_path, select_rpkiviews_files,
    HistoricalRpkiSource, RpkiViewsCollector,
};
use bgpkit_commons::rpki::{Rir, RpkiValidation};
use bgpkit_commons::errors::BgpkitCommonsError;
use bgpkit_commons::time::Date;

#[test]
fn test_collector_urls() {
    assert_eq!(
        RpkiViewsCollector::SoborostNet.base_url(),
        "https://josephine.sobornost.net/rpkidata"
    );
    assert_eq!(
        RpkiViewsCollector::KerfuffleNet.index_url(),
        "https://rpkiviews.kerfuffle.net/rpkidata/index.txt"
    );
}

#[test]
fn test_collector_from_str() {
    assert_eq!(
        RpkiViewsCollector::from_text("sobornost.net").unwrap(),
        RpkiViewsCollector::SoborostNet
    );
    assert_eq!(
        RpkiViewsCollector::from_text("amber.massars.net").unwrap(),
        RpkiViewsCollector::MassarsNet
    );
}

#[test]
fn test_default_collector() {
    assert_eq!(RpkiViewsCollector::default(), RpkiViewsCollector::SoborostNet);
}

#[test]
fn collectors_listed_and_named() {
    let all = RpkiViewsCollector::all();
    assert_eq!(all.len(), 4);
    assert_eq!(all[3], RpkiViewsCollector::KerfuffleNet);
    assert_eq!(RpkiViewsCollector::AttnJp.name(), "attn.jp");
    assert_eq!(RpkiViewsCollector::from_text("DANGO.ATTN.JP"), Some(RpkiViewsCollector::AttnJp));
    assert_eq!(RpkiViewsCollector::from_text("example.net"), None);
}

#[test]
fn ripe_urls_are_zero_padded() {
    let date = Date { year: 2024, month: 1, day: 4 };
    assert_eq!(
        ripe_file_url(Rir::APNIC, date),
        "https://ftp.ripe.net/rpki/apnic.tal/2024/01/04/output.json.xz"
    );
    let files = list_ripe_files(date).unwrap();
    assert_eq!(files.len(), 5);
    assert_eq!(files[0].url, "https://ftp.ripe.net/rpki/afrinic.tal/2024/01/04/output.json.xz");
    assert_eq!(files[4].rir, Some(Rir::RIPENCC));
    assert_eq!(files[0].timestamp, 1704326400);
    assert!(files[0].size.is_none());
    assert_eq!(
        list_ripe_files(Date { year: 2024, month: 2, day: 30 }).err(),
        Some(BgpkitCommonsError::InvalidDate(Date { year: 2024, month: 2, day: 30 }))
    );
}

#[test]
fn rpkiviews_index_selection() {
    let lines: Vec<String> = vec![
        "2024/01/04/rpki-20240104T144128Z.tgz 1704379288 123".to_string(),
        "2024/01/04/rpki-20240104T004128Z.tgz 1704328888 456".to_string(),
        "2024/01/05/rpki-20240105T004128Z.tgz 1704415288 789".to_string(),
        "2024/01/04/other-20240104.tgz 1704328888 1".to_string(),
        "2024/01/04/rpki-20240104.tar 1704328888 1".to_string(),
        "2024/01/04/rpki-x.tgz notanumber 1".to_string(),
        "short line".to_string(),
        "".to_string(),
    ];
    let date = Date { year: 2024, month: 1, day: 4 };
    let files = select_rpkiviews_files(RpkiViewsCollector::KerfuffleNet, date, &lines);
    assert_eq!(files.len(), 2);
    assert_eq!(
        files[0].url,
        "https://rpkiviews.kerfuffle.net/rpkidata/2024/01/04/rpki-20240104T004128Z.tgz"
    );
    assert_eq!(files[0].timestamp, 1704328888);
    assert_eq!(files[0].size, Some(456));
    assert_eq!(files[1].timestamp, 1704379288);
    assert_eq!(files[1].collector, Some(RpkiViewsCollector::KerfuffleNet));
}

#[test]
fn source_names() {
    assert_eq!(HistoricalRpkiSource::Ripe.describe(), "RIPE NCC");
    assert_eq!(
        HistoricalRpkiSource::RpkiViews(RpkiViewsCollector::MassarsNet).describe(),
        "RPKIviews (massars.net)"
    );
    assert_eq!(RpkiValidation::Invalid.name(), "invalid");
}

#[test]
fn archive_decisions() {
    assert!(is_target_member("./output/rpki-client.json", rpki_client_member_path()));
    assert!(!is_target_member("output/rpki-client.json.sig", "output/rpki-client.json"));
    assert!(is_directory_member("output/"));
    assert!(!listing_full(3, None));
    assert!(listing_full(10, Some(10)));
    assert!(!listing_full(9, Some(10)));
    assert_eq!(member_result(Some("{}".to_string()), "m", "u"), Ok("{}".to_string()));
    assert_eq!(
        member_result(None, "output/rpki-client.json", "https://x/a.tgz"),
        Err(BgpkitCommonsError::MemberNotFound {
            member: "output/rpki-client.json".to_string(),
            url: "https://x/a.tgz".to_string()
        })
    );
}

#[test]
fn earliest_file_or_no_data() {
    let date = Date { year: 2024, month: 1, day: 4 };
    let none = earliest_rpkiviews_file(&vec![], RpkiViewsCollector::AttnJp, date);
    assert_eq!(
        none.err(),
        Some(BgpkitCommonsError::NoDataAvailable { collector: RpkiViewsCollector::AttnJp, date })
    );
    let fields: Vec<String> = vec![
        "2024/01/04/rpki-1.tgz".to_string(),
        "1704328888".to_string(),
        "7".to_string(),
    ];
    let f = file_from_fields(RpkiViewsCollector::AttnJp, date, &fields).unwrap();
    assert_eq!(f.url, "https://dango.attn.jp/rpkidata/2024/01/04/rpki-1.tgz");
    let first = earliest_rpkiviews_file(&vec![f], RpkiViewsCollector::AttnJp, date).unwrap();
    assert_eq!(first.size, Some(7));
    let bad: Vec<String> = vec!["2024/01/05/rpki-1.tgz".to_string(), "1".to_string(), "7".to_string()];
    assert!(file_from_fields(RpkiViewsCollector::AttnJp, date, &bad).is_none());
    assert_eq!(RpkiViewsCollector::from_lowercase("attn.jp"), Some(RpkiViewsCollector::AttnJp));
    assert_eq!(RpkiViewsCollector::from_lowercase("ATTN.JP"), None);
    assert_eq!(Rir::from_lowercase("arin"), Some(Rir::ARIN));
}

#[test]
fn index_words_split_at_unicode_space() {
    let lines = vec!["\u{3000}2024/01/04/rpki-a.tgz\u{a0}1704328888\t\t5 extra".to_string()];
    let files = select_rpkiviews_files(RpkiViewsCollector::AttnJp, Date { year: 2024, month: 1, day: 4 }, &lines);
    assert_eq!(files.len(), 1);
    assert_eq!(files[0].size, Some(5));
}
