//! Where snapshots come from: the RIPE NCC archive of each registry and the
//! RPKIviews collectors, and how their file lists are derived.

use crate::errors::BgpkitCommonsError;
use crate::rpki::{ripe_root_url, Rir};
use crate::text::{
    contains_text, ends_with, i64_from_text, lowercase_of, occurs_in, padded_decimal, parse_i64,
    parse_u64, push_decimal, same_text, split_fields, starts_with, to_lowercase, u64_from_text,
    whitespace_fields,
};
use crate::time::{midnight_seconds, midnight_utc, timestamp_in_range, utc_representable, Date};
use vstd::prelude::*;

verus! {

/// The RPKIviews collectors.
#[derive(Clone, Copy, Debug, PartialEq, Eq, Structural)]
pub enum RpkiViewsCollector {
    /// josephine.sobornost.net, Amsterdam.
    SoborostNet,
    /// amber.massars.net, Lugano.
    MassarsNet,
    /// dango.attn.jp, Tokyo.
    AttnJp,
    /// rpkiviews.kerfuffle.net, Fremont.
    KerfuffleNet,
}

/// Which historical source to load from.
#[derive(Clone, Copy, Debug, PartialEq, Eq, Structural)]
pub enum HistoricalRpkiSource {
    /// The RIPE NCC archive, one file per registry.
    Ripe,
    /// One RPKIviews collector.
    RpkiViews(RpkiViewsCollector),
}

impl HistoricalRpkiSource {
    /// A name for the source: `RIPE NCC`, or `RPKIviews (<collector>)`.
    pub fn describe(&self) -> (r: String)
        ensures
            r@ == (match *self {
                HistoricalRpkiSource::Ripe => "RIPE NCC"@,
                HistoricalRpkiSource::RpkiViews(c) => "RPKIviews ("@ + collector_name(c) + ")"@,
            }),
    {
        match self {
            HistoricalRpkiSource::Ripe => String::from_str("RIPE NCC"),
            HistoricalRpkiSource::RpkiViews(c) => {
                let mut s = String::from_str("RPKIviews (");
                s.append(c.name());
                s.append(")");
                s
            },
        }
    }
}

/// One downloadable snapshot file. `timestamp` is in Unix seconds.
#[derive(Clone, Debug)]
pub struct RpkiFile {
    pub url: String,
    pub timestamp: i64,
    pub size: Option<u64>,
    pub rir: Option<Rir>,
    pub collector: Option<RpkiViewsCollector>,
}

/// One member of a tar archive: its path and size in bytes.
#[derive(Clone, Debug)]
pub struct TgzFileEntry {
    pub path: String,
    pub size: u64,
}

pub open spec fn collector_base(c: RpkiViewsCollector) -> Seq<char> {
    match c {
        RpkiViewsCollector::SoborostNet => "https://josephine.sobornost.net/rpkidata"@,
        RpkiViewsCollector::MassarsNet => "https://amber.massars.net/rpkidata"@,
        RpkiViewsCollector::AttnJp => "https://dango.attn.jp/rpkidata"@,
        RpkiViewsCollector::KerfuffleNet => "https://rpkiviews.kerfuffle.net/rpkidata"@,
    }
}

pub open spec fn collector_name(c: RpkiViewsCollector) -> Seq<char> {
    match c {
        RpkiViewsCollector::SoborostNet => "sobornost.net"@,
        RpkiViewsCollector::MassarsNet => "massars.net"@,
        RpkiViewsCollector::AttnJp => "attn.jp"@,
        RpkiViewsCollector::KerfuffleNet => "kerfuffle.net"@,
    }
}

/// The collector named by its domain or its host name, in any letter case.
pub open spec fn collector_from_text(s: Seq<char>) -> Option<RpkiViewsCollector> {
    collector_from_lowercase(lowercase_of(s))
}

/// The collector named by a lower-case domain or host name.
pub open spec fn collector_from_lowercase(l: Seq<char>) -> Option<RpkiViewsCollector> {
    if l == "sobornost.net"@ || l == "josephine.sobornost.net"@ {
        Some(RpkiViewsCollector::SoborostNet)
    } else if l == "massars.net"@ || l == "amber.massars.net"@ {
        Some(RpkiViewsCollector::MassarsNet)
    } else if l == "attn.jp"@ || l == "dango.attn.jp"@ {
        Some(RpkiViewsCollector::AttnJp)
    } else if l == "kerfuffle.net"@ || l == "rpkiviews.kerfuffle.net"@ {
        Some(RpkiViewsCollector::KerfuffleNet)
    } else {
        None
    }
}

impl RpkiViewsCollector {
    /// The HTTPS root of the collector's archive.
    pub fn base_url(&self) -> (r: &'static str)
        ensures
            r@ == collector_base(*self),
    {
        match self {
            RpkiViewsCollector::SoborostNet => "https://josephine.sobornost.net/rpkidata",
            RpkiViewsCollector::MassarsNet => "https://amber.massars.net/rpkidata",
            RpkiViewsCollector::AttnJp => "https://dango.attn.jp/rpkidata",
            RpkiViewsCollector::KerfuffleNet => "https://rpkiviews.kerfuffle.net/rpkidata",
        }
    }

    /// The collector's index of archives.
    pub fn index_url(&self) -> (r: String)
        ensures
            r@ == collector_base(*self) + "/index.txt"@,
    {
        let base = String::from_str(self.base_url());
        base.concat("/index.txt")
    }

    /// Every collector.
    pub fn all() -> (r: Vec<RpkiViewsCollector>)
        ensures
            r@ == seq![
                RpkiViewsCollector::SoborostNet,
                RpkiViewsCollector::MassarsNet,
                RpkiViewsCollector::AttnJp,
                RpkiViewsCollector::KerfuffleNet,
            ],
    {
        let r = vec![
            RpkiViewsCollector::SoborostNet,
            RpkiViewsCollector::MassarsNet,
            RpkiViewsCollector::AttnJp,
            RpkiViewsCollector::KerfuffleNet,
        ];
        assert(r@ =~= seq![
            RpkiViewsCollector::SoborostNet,
            RpkiViewsCollector::MassarsNet,
            RpkiViewsCollector::AttnJp,
            RpkiViewsCollector::KerfuffleNet,
        ]);
        r
    }

    /// The collector's short name (its domain).
    pub fn name(&self) -> (r: &'static str)
        ensures
            r@ == collector_name(*self),
    {
        match self {
            RpkiViewsCollector::SoborostNet => "sobornost.net",
            RpkiViewsCollector::MassarsNet => "massars.net",
            RpkiViewsCollector::AttnJp => "attn.jp",
            RpkiViewsCollector::KerfuffleNet => "kerfuffle.net",
        }
    }

    /// Reads a collector from its domain or host name, in any letter case.
    pub fn from_text(s: &str) -> (r: Option<RpkiViewsCollector>)
        ensures
            r == collector_from_text(s@),
    {
        let lower = to_lowercase(s);
        RpkiViewsCollector::from_lowercase(lower.as_str())
    }

    /// Reads a collector from its domain or host name already in lower case.
    pub fn from_lowercase(l: &str) -> (r: Option<RpkiViewsCollector>)
        ensures
            r == collector_from_lowercase(l@),
    {
        if same_text(l, "sobornost.net") || same_text(l, "josephine.sobornost.net") {
            Some(RpkiViewsCollector::SoborostNet)
        } else if same_text(l, "massars.net") || same_text(l, "amber.massars.net") {
            Some(RpkiViewsCollector::MassarsNet)
        } else if same_text(l, "attn.jp") || same_text(l, "dango.attn.jp") {
            Some(RpkiViewsCollector::AttnJp)
        } else if same_text(l, "kerfuffle.net") || same_text(l, "rpkiviews.kerfuffle.net") {
            Some(RpkiViewsCollector::KerfuffleNet)
        } else {
            None
        }
    }
}

impl Default for RpkiViewsCollector {
    fn default() -> (r: RpkiViewsCollector)
        ensures
            r == RpkiViewsCollector::SoborostNet,
    {
        RpkiViewsCollector::SoborostNet
    }
}

/// `yyyy/mm/dd` of a date.
pub open spec fn date_path(date: Date) -> Seq<char> {
    padded_decimal(date.year as nat, 4) + "/"@ + padded_decimal(date.month as nat, 2) + "/"@
        + padded_decimal(date.day as nat, 2)
}

/// Writes `yyyy/mm/dd` of a date after `s`.
pub fn push_date_path(s: &mut String, date: Date)
    ensures
        final(s)@ == old(s)@ + date_path(date),
{
    push_decimal(s, date.year as u64, 4);
    s.append("/");
    push_decimal(s, date.month as u64, 2);
    s.append("/");
    push_decimal(s, date.day as u64, 2);
    assert(s@ =~= old(s)@ + date_path(date));
}

/// The archive file of a registry for a date.
pub open spec fn ripe_file_url_of(rir: Rir, date: Date) -> Seq<char> {
    ripe_root_url(rir) + "/"@ + date_path(date) + "/output.json.xz"@
}

/// The URL of a registry's snapshot for a date in the RIPE NCC archive.
pub fn ripe_file_url(rir: Rir, date: Date) -> (r: String)
    ensures
        r@ == ripe_file_url_of(rir, date),
{
    let mut url = rir.to_ripe_ftp_root_url();
    url.append("/");
    push_date_path(&mut url, date);
    url.append("/output.json.xz");
    assert(url@ =~= ripe_file_url_of(rir, date));
    url
}

/// The five registries, in the order their files are listed and loaded.
pub open spec fn all_rirs() -> Seq<Rir> {
    seq![Rir::AFRINIC, Rir::APNIC, Rir::ARIN, Rir::LACNIC, Rir::RIPENCC]
}

/// The RIPE NCC files of a date, one per registry, stamped with the date's
/// midnight; fails when the date is not in the calendar.
pub fn list_ripe_files(date: Date) -> (r: Result<Vec<RpkiFile>, BgpkitCommonsError>)
    ensures
        r is Ok <==> midnight_seconds(date.year as int, date.month as int, date.day as int) is Some,
        r is Err ==> r == Err::<Vec<RpkiFile>, BgpkitCommonsError>(BgpkitCommonsError::InvalidDate(date)),
        r matches Ok(files) ==> {
            &&& files@.len() == 5
            &&& forall|i: int|
                0 <= i < 5 ==> {
                    let f = #[trigger] files@[i];
                    &&& f.url@ == ripe_file_url_of(all_rirs()[i], date)
                    &&& Some(f.timestamp) == midnight_seconds(
                        date.year as int,
                        date.month as int,
                        date.day as int,
                    )
                    &&& f.size is None
                    &&& f.rir == Some(all_rirs()[i])
                    &&& f.collector is None
                }
        },
{
    let timestamp = match midnight_utc(date) {
        Some(t) => t,
        None => return Err(BgpkitCommonsError::InvalidDate(date)),
    };
    let rirs = [Rir::AFRINIC, Rir::APNIC, Rir::ARIN, Rir::LACNIC, Rir::RIPENCC];
    let mut files: Vec<RpkiFile> = Vec::new();
    let mut i: usize = 0;
    while i < 5
        invariant
            i <= 5,
            rirs@ == all_rirs(),
            Some(timestamp) == midnight_seconds(date.year as int, date.month as int, date.day as int),
            files@.len() == i,
            forall|j: int|
                0 <= j < i ==> {
                    let f = #[trigger] files@[j];
                    &&& f.url@ == ripe_file_url_of(all_rirs()[j], date)
                    &&& f.timestamp == timestamp
                    &&& f.size is None
                    &&& f.rir == Some(all_rirs()[j])
                    &&& f.collector is None
                },
        decreases 5 - i,
    {
        let rir = rirs[i];
        let url = ripe_file_url(rir, date);
        files.push(RpkiFile { url, timestamp, size: None, rir: Some(rir), collector: None });
        i = i + 1;
    }
    Ok(files)
}

/// An index line names an archive of the date: at least three words, the
/// second a signed and the third an unsigned integer, the first a path under
/// `yyyy/mm/dd/` that ends in `.tgz` and holds `/rpki-`.
pub open spec fn index_line_selected(date: Date, line: Seq<char>) -> bool {
    fields_selected(date, whitespace_fields(line))
}

/// The words of an index line name an archive of the date: at least three
/// words, the second a signed and the third an unsigned integer, the first
/// a path under `yyyy/mm/dd/` that ends in `.tgz` and holds `/rpki-`.
pub open spec fn fields_selected(date: Date, f: Seq<Seq<char>>) -> bool {
    &&& f.len() >= 3
    &&& i64_from_text(f[1]) is Some
    &&& u64_from_text(f[2]) is Some
    &&& (date_path(date) + "/"@).is_prefix_of(f[0])
    &&& ".tgz"@.is_suffix_of(f[0])
    &&& occurs_in(f[0], "/rpki-"@)
}

/// `file` is what a selected index line lists.
pub open spec fn file_from_line(c: RpkiViewsCollector, line: Seq<char>, file: RpkiFile) -> bool {
    file_from_fields_spec(c, whitespace_fields(line), file)
}

/// `file` is what the words of a selected index line list: the path under
/// the collector's root, the time (the epoch when out of range) and the
/// size.
pub open spec fn file_from_fields_spec(c: RpkiViewsCollector, f: Seq<Seq<char>>, file: RpkiFile) -> bool {
    let ts = i64_from_text(f[1])->Some_0;
    &&& file.url@ == collector_base(c) + "/"@ + f[0]
    &&& file.timestamp == (if utc_representable(ts as int) {
        ts
    } else {
        0
    })
    &&& file.size == Some(u64_from_text(f[2])->Some_0)
    &&& file.rir is None
    &&& file.collector == Some(c)
}

/// The archive the words of one index line list, when they name one of
/// the date.
pub fn file_from_fields(collector: RpkiViewsCollector, date: Date, fields: &Vec<String>) -> (r:
    Option<RpkiFile>)
    ensures
        r is Some <==> fields_selected(date, fields@.map_values(|w: String| w@)),
        r matches Some(file) ==> file_from_fields_spec(
            collector,
            fields@.map_values(|w: String| w@),
            file,
        ),
{
    let ghost f = fields@.map_values(|w: String| w@);
    if fields.len() < 3 {
        return None;
    }
    let mut prefix = String::new();
    push_date_path(&mut prefix, date);
    prefix.append("/");
    let path = fields[0].as_str();
    assert(f[0] == path@ && f[1] == fields@[1]@ && f[2] == fields@[2]@);
    let ts = match parse_i64(fields[1].as_str()) {
        Some(t) => t,
        None => return None,
    };
    let size = match parse_u64(fields[2].as_str()) {
        Some(z) => z,
        None => return None,
    };
    if !(starts_with(path, prefix.as_str()) && ends_with(path, ".tgz") && contains_text(path, "/rpki-")) {
        return None;
    }
    let mut url = String::from_str(collector.base_url());
    url.append("/");
    url.append(path);
    let timestamp = if timestamp_in_range(ts) {
        ts
    } else {
        0
    };
    Some(RpkiFile { url, timestamp, size: Some(size), rir: None, collector: Some(collector) })
}

/// Relies on `slice::sort_by_key`: the same files, ordered by time.
#[verifier::external_body]
fn sort_by_timestamp(files: &mut Vec<RpkiFile>)
    ensures
        final(files)@.to_multiset() == old(files)@.to_multiset(),
        forall|i: int, j: int|
            0 <= i < j < final(files)@.len() ==> final(files)@[i].timestamp
                <= final(files)@[j].timestamp,
{
    files.sort_by_key(|f| f.timestamp)
}

/// The archives a collector's index lists for a date, oldest first.
pub fn select_rpkiviews_files(collector: RpkiViewsCollector, date: Date, lines: &Vec<String>) -> (r:
    Vec<RpkiFile>)
    ensures
        forall|i: int, j: int| 0 <= i < j < r@.len() ==> r@[i].timestamp <= r@[j].timestamp,
        exists|idx: Seq<int>, picked: Seq<RpkiFile>|
            {
                &&& idx.len() == picked.len()
                &&& r@.to_multiset() == picked.to_multiset()
                &&& forall|m: int|
                    0 <= m < idx.len() ==> 0 <= #[trigger] idx[m] < lines@.len()
                        && index_line_selected(date, lines@[idx[m]]@) && file_from_line(
                        collector,
                        lines@[idx[m]]@,
                        picked[m],
                    )
                &&& forall|m1: int, m2: int| 0 <= m1 < m2 < idx.len() ==> idx[m1] < idx[m2]
                &&& forall|i: int|
                    0 <= i < lines@.len() && index_line_selected(date, #[trigger] lines@[i]@)
                        ==> exists|m: int| 0 <= m < idx.len() && idx[m] == i
            },
{
    let mut files: Vec<RpkiFile> = Vec::new();
    let ghost mut idx: Seq<int> = Seq::empty();
    let mut i: usize = 0;
    while i < lines.len()
        invariant
            i <= lines@.len(),
            idx.len() == files@.len(),
            forall|m: int|
                0 <= m < idx.len() ==> 0 <= #[trigger] idx[m] < i && index_line_selected(
                    date,
                    lines@[idx[m]]@,
                ) && file_from_line(collector, lines@[idx[m]]@, files@[m]),
            forall|m1: int, m2: int| 0 <= m1 < m2 < idx.len() ==> idx[m1] < idx[m2],
            forall|k: int|
                0 <= k < i && index_line_selected(date, #[trigger] lines@[k]@) ==> exists|m: int|
                    0 <= m < idx.len() && idx[m] == k,
        decreases lines@.len() - i,
    {
        let line = lines[i].as_str();
        let fields = split_fields(line);
        let ghost idx0 = idx;
        let mut keep = false;
        proof {
            assert(fields@.map_values(|w: String| w@) =~= whitespace_fields(line@));
        }
        match file_from_fields(collector, date, &fields) {
            Some(file) => {
                files.push(file);
                keep = true;
                proof {
                    idx = idx.push(i as int);
                }
            },
            None => {},
        }
        proof {
            if !keep {
                assert(!index_line_selected(date, lines@[i as int]@));
                assert(idx == idx0);
            } else {
                assert(idx == idx0.push(i as int));
            }
            assert forall|k: int|
                0 <= k < i + 1 && index_line_selected(date, #[trigger] lines@[k]@) implies exists|m: int|
                    0 <= m < idx.len() && idx[m] == k by {
                if k < i {
                    let m = choose|m: int| 0 <= m < idx0.len() && idx0[m] == k;
                    assert(idx[m] == idx0[m]);
                } else {
                    assert(keep);
                    assert(idx[idx.len() - 1] == k);
                }
            }
        }
        i = i + 1;
    }
    let ghost picked = files@;
    sort_by_timestamp(&mut files);
    assert(exists|idx: Seq<int>, picked: Seq<RpkiFile>|
        {
            &&& idx.len() == picked.len()
            &&& files@.to_multiset() == picked.to_multiset()
            &&& forall|m: int|
                0 <= m < idx.len() ==> 0 <= #[trigger] idx[m] < lines@.len()
                    && index_line_selected(date, lines@[idx[m]]@) && file_from_line(
                    collector,
                    lines@[idx[m]]@,
                    picked[m],
                )
            &&& forall|m1: int, m2: int| 0 <= m1 < m2 < idx.len() ==> idx[m1] < idx[m2]
            &&& forall|i: int|
                0 <= i < lines@.len() && index_line_selected(date, #[trigger] lines@[i]@)
                    ==> exists|m: int| 0 <= m < idx.len() && idx[m] == i
        }) by {
        assert(idx.len() == picked.len());
    }
    files
}

impl RpkiFile {
    /// A copy of this file record.
    pub fn copy(&self) -> (r: RpkiFile)
        ensures
            r == *self,
    {
        RpkiFile {
            url: self.url.clone(),
            timestamp: self.timestamp,
            size: self.size,
            rir: self.rir,
            collector: self.collector,
        }
    }
}

/// The archive to load from a collector's list for a date (kept oldest
/// first): the first one; no archive is an error naming collector and date.
pub fn earliest_rpkiviews_file(files: &Vec<RpkiFile>, collector: RpkiViewsCollector, date: Date) -> (r:
    Result<RpkiFile, BgpkitCommonsError>)
    ensures
        (r is Err) == (files@.len() == 0),
        r is Err ==> r == Err::<RpkiFile, BgpkitCommonsError>(
            BgpkitCommonsError::NoDataAvailable { collector, date },
        ),
        r matches Ok(f) ==> f == files@[0],
{
    if files.len() == 0 {
        Err(BgpkitCommonsError::NoDataAvailable { collector, date })
    } else {
        Ok(files[0].copy())
    }
}

/// The member of a relying-party archive that holds its JSON output.
pub open spec fn rpki_client_member() -> Seq<char> {
    "output/rpki-client.json"@
}

/// The path of that member.
pub fn rpki_client_member_path() -> (r: &'static str)
    ensures
        r@ == rpki_client_member(),
{
    "output/rpki-client.json"
}

/// An archive member is the one looked for when its path ends with the
/// target path; reading stops there.
pub fn is_target_member(path: &str, target: &str) -> (r: bool)
    ensures
        r == target@.is_suffix_of(path@),
{
    ends_with(path, target)
}

/// A member whose path ends with `/` is a directory.
pub fn is_directory_member(path: &str) -> (r: bool)
    ensures
        r == "/"@.is_suffix_of(path@),
{
    ends_with(path, "/")
}

/// Listing stops once `count` members were kept and a maximum is given
/// that `count` reaches.
pub fn listing_full(count: usize, max_entries: Option<usize>) -> (r: bool)
    ensures
        r == (max_entries matches Some(m) && count >= m),
{
    match max_entries {
        Some(m) => count >= m,
        None => false,
    }
}

/// The outcome of reading an archive: the member's text, or an error that
/// names the member and the archive when the archive ended without it.
pub fn member_result(content: Option<String>, member: &str, url: &str) -> (r: Result<
    String,
    BgpkitCommonsError,
>)
    ensures
        content matches Some(c) ==> r == Ok::<String, BgpkitCommonsError>(c),
        content is None ==> (r matches Err(BgpkitCommonsError::MemberNotFound { member: m, url: u })
            && m@ == member@ && u@ == url@),
{
    match content {
        Some(c) => Ok(c),
        None => Err(
            BgpkitCommonsError::MemberNotFound {
                member: String::from_str(member),
                url: String::from_str(url),
            },
        ),
    }
}

} // verus!
