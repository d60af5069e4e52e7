use cfspeedtest::bandwidth::{
    bandwidth_label, bandwidth_sizes, transfer_request, ByteCounter, DummyVecStream, SizeSchedule,
    TransferRequest, UPLOAD_CHUNK_SIZE,
};
use cfspeedtest::endpoints::{download_url, upload_payload, UPLOAD_URL};
use cfspeedtest::latency::latency_probe_finished;
use cfspeedtest::locations::{Location, ServerLocations};
use cfspeedtest::meta::{describe_client, describe_isp, describe_server, CfMeta};
use cfspeedtest::server_timing::server_timing_duration;
use cfspeedtest::text::{chars_of, decimal_string, find_pattern_from, range_equals};
use cfspeedtest::trace::parse_cdn_cgi_trace;

#[test]
fn decimal_string_renders_like_display() {
    assert_eq!(decimal_string(0), "0");
    assert_eq!(decimal_string(7), "7");
    assert_eq!(decimal_string(10), "10");
    assert_eq!(decimal_string(1001000), "1001000");
    assert_eq!(decimal_string(u64::MAX), u64::MAX.to_string());
}

#[test]
fn chars_of_keeps_every_character() {
    assert_eq!(chars_of("aé☃"), vec!['a', 'é', '☃']);
    assert_eq!(chars_of(""), Vec::<char>::new());
}

#[test]
fn range_equals_compares_a_window() {
    let chars = chars_of("colo=AMS");
    assert!(range_equals(&chars, 0, 4, "colo"));
    assert!(!range_equals(&chars, 0, 3, "colo"));
    assert!(!range_equals(&chars, 5, 8, "AMX"));
    assert!(range_equals(&chars, 5, 5, ""));
}

#[test]
fn find_pattern_from_finds_the_first_match_at_or_after_start() {
    let chars = chars_of("a;dur=1;dur=2");
    assert_eq!(find_pattern_from(&chars, ";dur=", 0), Some(1));
    assert_eq!(find_pattern_from(&chars, ";dur=", 2), Some(7));
    assert_eq!(find_pattern_from(&chars, ";dur=", 8), None);
    assert_eq!(find_pattern_from(&chars, "", 3), Some(3));
    assert_eq!(find_pattern_from(&chars, "x", 40), None);
}

#[test]
fn download_url_carries_the_size() {
    assert_eq!(download_url(0), "https://speed.cloudflare.com/__down?bytes=0");
    assert_eq!(
        download_url(100001000),
        "https://speed.cloudflare.com/__down?bytes=100001000"
    );
}

#[test]
fn upload_payload_is_that_many_zeros() {
    assert_eq!(upload_payload(0), "");
    assert_eq!(upload_payload(5), "00000");
    assert_eq!(upload_payload(1000).len(), 1000);
    assert!(upload_payload(1000).chars().all(|c| c == '0'));
}

#[test]
fn trace_reads_ip_loc_and_colo() {
    let body = "fl=29f1\nh=speed.cloudflare.com\nip=203.0.113.7\nts=1700000000.123\n\
visit_scheme=https\nuag=Mozilla/5.0\ncolo=AMS\nsliver=none\nhttp=http/2\nloc=NL\n\
tls=TLSv1.3\nsni=plaintext\nwarp=off\ngateway=off\nrbi=off\nkex=X25519\n";
    let t = parse_cdn_cgi_trace(body);
    assert_eq!(t.ip, "203.0.113.7");
    assert_eq!(t.loc, "NL");
    assert_eq!(t.colo, "AMS");
}

#[test]
fn trace_later_line_overrides() {
    let t = parse_cdn_cgi_trace("ip=1.1.1.1\ncolo=FRA\nip=2.2.2.2");
    assert_eq!(t.ip, "2.2.2.2");
    assert_eq!(t.colo, "FRA");
    assert_eq!(t.loc, "");
}

#[test]
fn trace_ignores_lines_without_exactly_one_equals_sign() {
    let t = parse_cdn_cgi_trace("ip=a=b\nloc\ncolo==\nIP=9\n ip=3");
    assert_eq!(t.ip, "");
    assert_eq!(t.loc, "");
    assert_eq!(t.colo, "");
}

#[test]
fn trace_keeps_empty_values_and_carriage_returns() {
    let t = parse_cdn_cgi_trace("ip=\r\nloc=\ncolo=LHR\r\n");
    assert_eq!(t.ip, "\r");
    assert_eq!(t.loc, "");
    assert_eq!(t.colo, "LHR\r");
}

#[test]
fn trace_of_empty_body_is_empty() {
    let t = parse_cdn_cgi_trace("");
    assert_eq!((t.ip.as_str(), t.loc.as_str(), t.colo.as_str()), ("", "", ""));
}

#[test]
fn server_timing_takes_the_text_after_the_first_marker() {
    assert_eq!(
        server_timing_duration("cfRequestDuration;dur=12.5"),
        Some("12.5".to_string())
    );
    assert_eq!(
        server_timing_duration("cfL4;desc=\"?proto=TCP\";dur=0.3, cfExtPri"),
        Some("0.3, cfExtPri".to_string())
    );
}

#[test]
fn server_timing_stops_at_the_next_marker() {
    assert_eq!(server_timing_duration("a;dur=1;dur=2"), Some("1".to_string()));
    assert_eq!(server_timing_duration(";dur=;dur=5"), Some("".to_string()));
}

#[test]
fn server_timing_without_marker_is_none() {
    assert_eq!(server_timing_duration(""), None);
    assert_eq!(server_timing_duration("cfRequestDuration"), None);
    assert_eq!(server_timing_duration("dur=4"), None);
}

fn location(iata: &str, city: &str) -> Location {
    Location { iata: iata.to_string(), city: city.to_string() }
}

#[test]
fn locations_later_entry_wins() {
    let t = ServerLocations::from_locations(vec![
        location("AMS", "Amsterdam"),
        location("FRA", "Frankfurt"),
        location("AMS", "Schiphol"),
    ]);
    assert_eq!(t.get(&"AMS".to_string()), Some(&"Schiphol".to_string()));
    assert_eq!(t.get(&"FRA".to_string()), Some(&"Frankfurt".to_string()));
    assert_eq!(t.get(&"LHR".to_string()), None);
}

#[test]
fn locations_lookup_after_insert() {
    let mut t = ServerLocations::new();
    assert_eq!(t.get(&"SIN".to_string()), None);
    t.insert("SIN".to_string(), "Singapore".to_string());
    t.insert("NRT".to_string(), "Tokyo".to_string());
    assert_eq!(t.get(&"SIN".to_string()), Some(&"Singapore".to_string()));
    t.insert("SIN".to_string(), "Changi".to_string());
    assert_eq!(t.get(&"SIN".to_string()), Some(&"Changi".to_string()));
    assert_eq!(t.get(&"NRT".to_string()), Some(&"Tokyo".to_string()));
}

#[test]
fn locations_unknown_colo() {
    let t = ServerLocations::from_locations(vec![location("AMS", "Amsterdam")]);
    assert_eq!(t.city_or_unknown(&"AMS".to_string()), "Amsterdam");
    assert_eq!(t.city_or_unknown(&"XXX".to_string()), "Unknown");
}

fn sample_meta() -> CfMeta {
    CfMeta {
        hostname: "speed.cloudflare.com".to_string(),
        client_ip: "203.0.113.7".to_string(),
        http_protocol: "HTTP/2".to_string(),
        asn: 64496,
        as_organization: "Example Net".to_string(),
        colo: "AMS".to_string(),
        country: "NL".to_string(),
        city: "Amsterdam".to_string(),
        region: "North Holland".to_string(),
        postal_code: "1012".to_string(),
        latitude: "52.37".to_string(),
        longitude: "4.89".to_string(),
    }
}

#[test]
fn meta_lines() {
    let meta = sample_meta();
    assert_eq!(describe_client(&meta), "203.0.113.7 (Amsterdam, NL)");
    assert_eq!(describe_isp(&meta), "Example Net (AS64496)");
    assert_eq!(describe_server("Amsterdam", "AMS"), "Amsterdam (AMS)");
}

#[test]
fn bandwidth_plan() {
    assert_eq!(bandwidth_sizes(true), vec![1001000, 10001000, 25001000, 100001000]);
    assert_eq!(bandwidth_sizes(false), vec![1000000, 10000000, 25000000]);
    assert_eq!(bandwidth_label(true), "Download Speed");
    assert_eq!(bandwidth_label(false), "Upload Speed");
}

#[test]
fn schedule_moves_up_on_fast_transfers_only() {
    let mut s = SizeSchedule::new(vec![10, 20, 30]);
    assert_eq!(s.next_size(false), Some(10));
    s.record(999_999_999);
    assert_eq!(s.next_size(false), Some(20));
    s.record(1_000_000_000);
    assert_eq!(s.next_size(false), Some(20));
    s.record(0);
    assert_eq!(s.next_size(false), Some(30));
    s.record(0);
    assert_eq!(s.next_size(false), Some(30));
    assert_eq!(s.next_size(true), None);
}

#[test]
fn transfer_requests() {
    match transfer_request(1001000, true, false) {
        Some(TransferRequest::Download { url }) => {
            assert_eq!(url, "https://speed.cloudflare.com/__down?bytes=1001000")
        }
        other => panic!("unexpected {:?}", other),
    }
    match transfer_request(25, false, false) {
        Some(TransferRequest::Upload { url, size, chunk_size }) => {
            assert_eq!(url, UPLOAD_URL);
            assert_eq!(size, 25);
            assert_eq!(chunk_size, UPLOAD_CHUNK_SIZE);
            assert_eq!(chunk_size, 8192);
        }
        other => panic!("unexpected {:?}", other),
    }
    assert!(transfer_request(25, true, true).is_none());
    assert!(transfer_request(25, false, true).is_none());
}

#[test]
fn byte_counter_sums_and_ticks_every_tenth() {
    let mut c = ByteCounter::new();
    let mut ticks = Vec::new();
    for i in 0..25u64 {
        ticks.push(c.record(i * 1000));
    }
    assert_eq!(c.total_bytes(), (0..25u64).map(|i| i * 1000).sum::<u64>());
    assert_eq!(c.arrivals(), 25);
    let ticked: Vec<usize> = ticks.iter().enumerate().filter(|(_, t)| **t).map(|(i, _)| i).collect();
    assert_eq!(ticked, vec![9, 19]);
}

#[test]
fn byte_counter_reports_whole_mib() {
    let mut c = ByteCounter::new();
    c.record(3 * 1024 * 1024 - 1);
    assert_eq!(c.used_mib(), 2);
    c.record(1);
    assert_eq!(c.used_mib(), 3);
}

#[test]
fn upload_stream_cuts_the_body_into_chunks() {
    let mut s = DummyVecStream::new(20000, 8192);
    let mut lens = Vec::new();
    while let Some(chunk) = s.next_chunk() {
        assert!(chunk.iter().all(|b| *b == 0));
        lens.push(chunk.len());
    }
    assert_eq!(lens, vec![8192, 8192, 3616]);
    assert_eq!(lens.iter().sum::<usize>(), 20000);
    assert_eq!(s.cursor(), 20000);
    assert!(s.next_chunk().is_none());
}

#[test]
fn upload_stream_of_nothing_is_empty() {
    let mut s = DummyVecStream::new(0, 8192);
    assert!(s.next_chunk().is_none());
    let mut exact = DummyVecStream::new(8192, 8192);
    assert_eq!(exact.next_chunk().map(|c| c.len()), Some(8192));
    assert!(exact.next_chunk().is_none());
}

#[test]
fn latency_probe_stops() {
    assert!(!latency_probe_finished(1, 0));
    assert!(!latency_probe_finished(29, 10_000_000_000));
    assert!(!latency_probe_finished(30, 5_000_000_000));
    assert!(latency_probe_finished(30, 5_000_000_001));
    assert!(latency_probe_finished(100, 0));
    assert!(!latency_probe_finished(99, 0));
}

#[test]
fn upload_stream_chunk_count_rounds_up() {
    for (max, chunk) in [(8193usize, 8192usize), (16384, 8192), (1, 8192), (10, 3)] {
        let mut s = DummyVecStream::new(max, chunk);
        let mut lens = Vec::new();
        while let Some(c) = s.next_chunk() {
            lens.push(c.len());
        }
        assert_eq!(lens.len(), (max + chunk - 1) / chunk);
        for (k, len) in lens.iter().enumerate() {
            assert_eq!(*len, chunk.min(max - k * chunk));
        }
    }
}
