use packet_captor::capture::{work_for_urls, CaptureWork, CaptureWorkType};
use packet_captor::connection::{ConnState, HistoryEntry};
use packet_captor::dataset::{is_first_of_class, order_reports};
use packet_captor::url::{UrlEntry, UrlsReader};
use packet_captor::work::{WorkQueue, WorkReportRequest};

fn work(index: u64) -> CaptureWork {
    CaptureWork { index, url: format!("site{}.com", index), filename: format!("{}.pcap", index) }
}

#[test]
fn lowest_index_is_served_first() {
    let mut q = WorkQueue::from_work(vec![
        (CaptureWorkType::Normal, work(3)),
        (CaptureWorkType::Tor, work(1)),
        (CaptureWorkType::Normal, work(1)),
        (CaptureWorkType::Normal, work(2)),
    ]);
    let c = q.add_client(vec![CaptureWorkType::Normal]);
    assert_eq!(c, 1);
    let got: Vec<u64> = (0..3).map(|_| q.request_work(c).unwrap().1.index).collect();
    assert_eq!(got, vec![1, 2, 3]);
    assert!(q.request_work(c).is_none());
}

#[test]
fn client_preferences_are_followed() {
    let mut q = WorkQueue::from_work(vec![(CaptureWorkType::Normal, work(5)), (CaptureWorkType::Tor, work(9))]);
    let a = q.add_client(vec![CaptureWorkType::Tor, CaptureWorkType::Normal]);
    let b = q.add_client(vec![CaptureWorkType::Tor]);
    assert_eq!(b, 2);
    assert_eq!(q.num_clients(), 2);
    let (t, w) = q.request_work(a).unwrap();
    assert_eq!((t, w.index), (CaptureWorkType::Tor, 9));
    assert!(q.request_work(b).is_none());
    let (t, w) = q.request_work(a).unwrap();
    assert_eq!((t, w.index), (CaptureWorkType::Normal, 5));
    q.add_work(CaptureWorkType::Tor, work(4));
    assert_eq!(q.request_work(b).unwrap().1.index, 4);
}

#[test]
fn unknown_and_removed_clients_get_nothing() {
    let mut q = WorkQueue::from_work(vec![(CaptureWorkType::Normal, work(1))]);
    assert!(q.request_work(7).is_none());
    let c = q.add_client(vec![CaptureWorkType::Normal]);
    q.remove_client(c);
    assert_eq!(q.num_clients(), 0);
    assert!(q.request_work(c).is_none());
    let d = q.add_client(vec![CaptureWorkType::Normal]);
    assert_eq!(d, 2);
    assert_eq!(q.request_work(d).unwrap().1.url, "site1.com");
}

#[test]
fn work_type_names() {
    assert_eq!(CaptureWorkType::Normal.name(), "normal");
    assert_eq!(CaptureWorkType::Tor.name(), "tor");
}

#[test]
fn capture_file_name_is_hex_of_bytes() {
    let entry = UrlEntry { index: 3, url: "example.com".to_string() };
    let w = CaptureWork::with_name_bytes(entry, &[0x00, 0xab, 0x7f]);
    assert_eq!(w.index, 3);
    assert_eq!(w.url, "example.com");
    assert_eq!(w.filename, "00ab7f.pcap");
}

#[test]
fn random_capture_file_name() {
    let entry = UrlEntry { index: 8, url: "example.org".to_string() };
    let w = CaptureWork::from_url_entry(entry);
    assert_eq!(w.index, 8);
    assert_eq!(w.filename.len(), 64 + 5);
    assert!(w.filename.ends_with(".pcap"));
    assert!(w.filename[..64].chars().all(|c| c.is_ascii_hexdigit() && !c.is_ascii_uppercase()));
}

#[test]
fn url_reader_limits() {
    let entries = || (0..5).map(|i| UrlEntry { index: i, url: format!("u{}", i) }).collect::<Vec<_>>();
    let mut r = UrlsReader::build().with_limit(2).from_entries(entries());
    assert_eq!(r.next_entry().unwrap().index, 0);
    assert_eq!(r.next_entry().unwrap().url, "u1");
    assert!(r.next_entry().is_none());
    let r = UrlsReader::build().from_entries(entries());
    assert_eq!(r.entries.len(), 5);
    let r = UrlsReader::build().with_limit(9).with_limit_opt(None).from_entries(entries());
    assert_eq!(r.entries.len(), 5);
    let r = UrlsReader::build().with_limit_opt(Some(10)).from_entries(entries());
    assert_eq!(r.entries.len(), 5);
}

fn report(success: bool, t: CaptureWorkType, index: u64, type_index: u64) -> WorkReportRequest<CaptureWorkType, CaptureWork> {
    WorkReportRequest { success, work_type: t, work: work(index), type_index, start_time: 0, finish_time: 1 }
}

#[test]
fn reports_are_filtered_and_ordered() {
    let ordered = order_reports(vec![
        report(true, CaptureWorkType::Tor, 2, 2),
        report(true, CaptureWorkType::Normal, 7, 1),
        report(false, CaptureWorkType::Normal, 1, 3),
        report(true, CaptureWorkType::Tor, 1, 1),
    ]);
    let keys: Vec<(CaptureWorkType, u64)> = ordered.iter().map(|r| (r.work_type, r.work.index)).collect();
    assert_eq!(
        keys,
        vec![(CaptureWorkType::Normal, 7), (CaptureWorkType::Tor, 1), (CaptureWorkType::Tor, 2)]
    );
    let firsts: Vec<bool> = ordered.iter().map(|r| is_first_of_class(r.type_index)).collect();
    assert_eq!(firsts, vec![true, true, false]);
    assert!(order_reports(vec![]).is_empty());
}

#[test]
fn history_letters_and_default_state() {
    let h: Vec<HistoryEntry> = "shadfrctiq^x".chars().map(HistoryEntry::from).collect();
    assert_eq!(
        h,
        vec![
            HistoryEntry::Syn,
            HistoryEntry::Handshake,
            HistoryEntry::Ack,
            HistoryEntry::Data,
            HistoryEntry::Fin,
            HistoryEntry::Rst,
            HistoryEntry::BadChecksum,
            HistoryEntry::Retransmit,
            HistoryEntry::Inconsistent,
            HistoryEntry::MultiFlag,
            HistoryEntry::DirectionFlipped,
            HistoryEntry::Unknown,
        ]
    );
    assert_eq!(ConnState::default(), ConnState::UNK);
}

#[test]
fn two_tor_captures_keep_index_order() {
    let ordered = order_reports(vec![
        report(true, CaptureWorkType::Tor, 2, 2),
        report(true, CaptureWorkType::Tor, 1, 1),
    ]);
    assert_eq!(ordered.len(), 2);
    assert_eq!(ordered[0].work.index, 1);
    assert!(is_first_of_class(ordered[0].type_index));
    assert_eq!(ordered[1].work.index, 2);
    assert!(!is_first_of_class(ordered[1].type_index));
}

#[test]
fn each_url_gives_a_normal_and_a_tor_capture() {
    let entries = vec![
        UrlEntry { index: 1, url: "a.com".to_string() },
        UrlEntry { index: 2, url: "b.com".to_string() },
    ];
    let work = work_for_urls(entries);
    let summary: Vec<(CaptureWorkType, u64, String)> =
        work.iter().map(|(t, w)| (*t, w.index, w.url.clone())).collect();
    assert_eq!(
        summary,
        vec![
            (CaptureWorkType::Normal, 1, "a.com".to_string()),
            (CaptureWorkType::Tor, 1, "a.com".to_string()),
            (CaptureWorkType::Normal, 2, "b.com".to_string()),
            (CaptureWorkType::Tor, 2, "b.com".to_string()),
        ]
    );
    assert_ne!(work[0].1.filename, work[1].1.filename);
}
