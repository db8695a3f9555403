use speed::json::{Json, Member};
use speed::providers::cloudflare::endpoints::{endpoint_path, endpoint_url, Endpoint};
use speed::providers::cloudflare::table::{location_table, member_text, parse_location_table};
use speed::providers::cloudflare::timing::parse_server_time_from_response;
use speed::providers::cloudflare::trace::{field, parse_trace, TraceEntry};
use speed::providers::cloudflare::{
    active_edge, annotate, download, download_profile, find_location, get_server_info,
    latency_probe_count, measure_download, measure_latency, measure_speed, net_time, size_label,
    throughput,
    transfer_times, write_figure, ActiveEdgeInfo, LatencyInfo, LocationRecord, MeasureError,
    Probe, ProfileEntry, ResolveError, Run, ServerInfo, SpeedInfo,
};
use speed::stats::Ratio;

fn record(iata: &str, city: &str) -> LocationRecord {
    LocationRecord { iata: iata.as_bytes().to_vec(), city: city.as_bytes().to_vec() }
}

fn probe(elapsed_micros: u64, header: &str) -> Probe {
    Probe { elapsed_micros, timing_header: header.as_bytes().to_vec() }
}

#[test]
fn server_info_joins_trace_and_table() {
    let table = vec![record("LAX", "Los Angeles"), record("SJC", "San Jose")];
    let info = get_server_info(b"colo=SJC\nip=1.2.3.4\nloc=US\n", &table).unwrap();
    assert_eq!(info.location, b"San Jose (SJC)".to_vec());
    assert_eq!(info.client_ip, b"1.2.3.4 (US)".to_vec());
}

#[test]
fn server_info_reads_a_full_trace() {
    let table = vec![record("SJC", "San Jose")];
    let body = b"fl=1f1\nh=speed.cloudflare.com\nip=2001:db8::1\nts=1.5\ncolo=SJC\nloc=DE";
    let info = get_server_info(body, &table).unwrap();
    assert_eq!(info.location, b"San Jose (SJC)".to_vec());
    assert_eq!(info.client_ip, b"2001:db8::1 (DE)".to_vec());
}

#[test]
fn server_info_takes_the_first_matching_record() {
    let table = vec![record("SJC", "San Jose"), record("SJC", "Santa Clara")];
    let info = get_server_info(b"colo=SJC\nip=1.2.3.4\nloc=US\n", &table).unwrap();
    assert_eq!(info.location, b"San Jose (SJC)".to_vec());
}

#[test]
fn server_info_fails_on_unknown_edge() {
    let table = vec![record("LAX", "Los Angeles")];
    assert_eq!(
        get_server_info(b"colo=SJC\nip=1.2.3.4\nloc=US\n", &table),
        Err(ResolveError::UnknownEdge)
    );
    assert_eq!(
        get_server_info(b"colo=SJC\nip=1.2.3.4\nloc=US\n", &Vec::new()),
        Err(ResolveError::UnknownEdge)
    );
}

#[test]
fn server_info_fails_on_malformed_line() {
    let table = vec![record("SJC", "San Jose")];
    assert_eq!(
        get_server_info(b"colo=SJC\nbroken\nip=1.2.3.4\nloc=US\n", &table),
        Err(ResolveError::MalformedTrace)
    );
    assert_eq!(
        get_server_info(b"colo=SJC\nip=1=2\nloc=US\n", &table),
        Err(ResolveError::MalformedTrace)
    );
    assert_eq!(
        get_server_info(b"colo=SJC\n\nip=1.2.3.4\nloc=US\n", &table),
        Err(ResolveError::MalformedTrace)
    );
}

#[test]
fn server_info_fails_on_missing_field() {
    let table = vec![record("SJC", "San Jose")];
    assert_eq!(get_server_info(b"colo=SJC\nip=1.2.3.4\n", &table), Err(ResolveError::MissingField));
    assert_eq!(get_server_info(b"ip=1.2.3.4\nloc=US\n", &table), Err(ResolveError::MissingField));
    assert_eq!(get_server_info(b"colo=SJC\nloc=US\n", &table), Err(ResolveError::MissingField));
    assert_eq!(get_server_info(b"", &table), Err(ResolveError::MissingField));
}

#[test]
fn parse_trace_reads_pairs_in_order() {
    let entries = parse_trace(b"a=1\r\nb=\nc=3").unwrap();
    assert_eq!(
        entries,
        vec![
            TraceEntry { key: b"a".to_vec(), value: b"1".to_vec() },
            TraceEntry { key: b"b".to_vec(), value: Vec::new() },
            TraceEntry { key: b"c".to_vec(), value: b"3".to_vec() },
        ]
    );
    assert_eq!(parse_trace(b"").unwrap(), Vec::new());
    assert_eq!(parse_trace(b"a=1\n").unwrap().len(), 1);
    assert_eq!(parse_trace(b"a=1\n\n"), Err(ResolveError::MalformedTrace));
    assert_eq!(parse_trace(b"a"), Err(ResolveError::MalformedTrace));
}

#[test]
fn parse_trace_keeps_a_carriage_return_without_line_feed() {
    let entries = parse_trace(b"a=1\r").unwrap();
    assert_eq!(entries, vec![TraceEntry { key: b"a".to_vec(), value: b"1\r".to_vec() }]);
}

#[test]
fn field_takes_the_last_of_equal_keys() {
    let entries = parse_trace(b"ip=1.1.1.1\ncolo=SJC\nip=2.2.2.2\n").unwrap();
    assert_eq!(field(&entries, b"ip"), Some(b"2.2.2.2".to_vec()));
    assert_eq!(field(&entries, b"colo"), Some(b"SJC".to_vec()));
    assert_eq!(field(&entries, b"loc"), None);
}

#[test]
fn active_edge_collects_the_three_fields() {
    let entries = parse_trace(b"loc=US\nip=1.2.3.4\ncolo=SJC\n").unwrap();
    assert_eq!(
        active_edge(&entries),
        Ok(ActiveEdgeInfo {
            colo: b"SJC".to_vec(),
            client_ip: b"1.2.3.4".to_vec(),
            loc: b"US".to_vec(),
        })
    );
    let partial = parse_trace(b"loc=US\n").unwrap();
    assert_eq!(active_edge(&partial), Err(ResolveError::MissingField));
}

#[test]
fn find_location_gives_the_first_place() {
    let table = vec![record("LAX", "Los Angeles"), record("SJC", "San Jose"), record("SJC", "x")];
    assert_eq!(find_location(&table, b"SJC"), Some(1));
    assert_eq!(find_location(&table, b"LAX"), Some(0));
    assert_eq!(find_location(&table, b"FRA"), None);
}

#[test]
fn annotate_puts_the_note_in_brackets() {
    assert_eq!(annotate(b"San Jose", b"SJC"), b"San Jose (SJC)".to_vec());
    assert_eq!(annotate(b"", b""), b" ()".to_vec());
}

#[test]
fn render_drops_quotes_from_the_location() {
    let info = ServerInfo {
        location: b"\"San Jose\" (\"SJC\")".to_vec(),
        client_ip: b"1.2.3.4 (US)".to_vec(),
    };
    assert_eq!(
        String::from_utf8(info.render()).unwrap(),
        "Server Location:\tSan Jose (SJC)\nYour IP:\t\t1.2.3.4 (US)"
    );
}

#[test]
fn late_server_delay_drops_the_sample() {
    assert_eq!(net_time(50_000, 80_000), None);
    assert_eq!(net_time(50_000, 50_000), None);
    assert_eq!(net_time(50_000, 10_000), Some(40_000));
}

#[test]
fn timing_header_is_read_as_milliseconds() {
    assert_eq!(parse_server_time_from_response(b"cfRequestDuration;dur=12.999939"), Ok(12_999));
    assert_eq!(parse_server_time_from_response(b"dur=80"), Ok(80_000));
    assert_eq!(parse_server_time_from_response(b"dur=0.5"), Ok(500));
    assert_eq!(parse_server_time_from_response(b"dur=3."), Ok(3_000));
    assert_eq!(parse_server_time_from_response(b"dur=.5"), Ok(500));
    assert_eq!(parse_server_time_from_response(b"dur=.0004"), Ok(0));
    assert_eq!(parse_server_time_from_response(b"dur=0"), Ok(0));
    assert_eq!(parse_server_time_from_response(b"dur=1.25"), Ok(1_250));
    assert_eq!(parse_server_time_from_response(b"a;dur=1, b;dur=2.5"), Ok(2_500));
    assert_eq!(parse_server_time_from_response(b"dur=1,7"), Ok(7_000));
    assert_eq!(parse_server_time_from_response(b"42"), Ok(42_000));
}

#[test]
fn timing_header_without_a_number_is_malformed() {
    assert_eq!(parse_server_time_from_response(b""), Err(MeasureError::MalformedTiming));
    assert_eq!(parse_server_time_from_response(b"dur="), Err(MeasureError::MalformedTiming));
    assert_eq!(parse_server_time_from_response(b"dur=abc"), Err(MeasureError::MalformedTiming));
    assert_eq!(parse_server_time_from_response(b"dur=1.2.3"), Err(MeasureError::MalformedTiming));
    assert_eq!(parse_server_time_from_response(b"dur=."), Err(MeasureError::MalformedTiming));
    assert_eq!(parse_server_time_from_response(b"dur=+1"), Err(MeasureError::MalformedTiming));
    assert_eq!(parse_server_time_from_response(b"dur=1e3"), Err(MeasureError::MalformedTiming));
    assert_eq!(parse_server_time_from_response(b"dur=inf"), Err(MeasureError::MalformedTiming));
    assert_eq!(parse_server_time_from_response(b"dur=nan"), Err(MeasureError::MalformedTiming));
    assert_eq!(parse_server_time_from_response(b"dur=..5"), Err(MeasureError::MalformedTiming));
    assert_eq!(parse_server_time_from_response(b"dur=-1"), Err(MeasureError::MalformedTiming));
    assert_eq!(parse_server_time_from_response(b"dur=1.x"), Err(MeasureError::MalformedTiming));
    assert_eq!(parse_server_time_from_response(b"dur= 1"), Err(MeasureError::MalformedTiming));
}

#[test]
fn timing_header_beyond_the_range_is_reported() {
    assert_eq!(
        parse_server_time_from_response(b"dur=18446744073709551"),
        Ok(18_446_744_073_709_551_000)
    );
    assert_eq!(
        parse_server_time_from_response(b"dur=18446744073709551.615"),
        Ok(u64::MAX)
    );
    assert_eq!(
        parse_server_time_from_response(b"dur=18446744073709551.616"),
        Err(MeasureError::TimingOutOfRange)
    );
    assert_eq!(
        parse_server_time_from_response(b"dur=99999999999999999999999999"),
        Err(MeasureError::TimingOutOfRange)
    );
}

#[test]
fn transfer_times_keep_valid_samples_in_order() {
    let probes = vec![
        probe(50_000, "dur=10"),
        probe(50_000, "dur=80"),
        probe(30_000, "dur=0.5"),
    ];
    assert_eq!(transfer_times(&probes), Ok(vec![40_000, 29_500]));
    assert_eq!(transfer_times(&Vec::new()), Ok(Vec::new()));
    let broken = vec![probe(50_000, "dur=10"), probe(1, "dur=x"), probe(1, "dur=9999999999999999999999")];
    assert_eq!(transfer_times(&broken), Err(MeasureError::MalformedTiming));
}

#[test]
fn latency_summary_of_a_run() {
    let probes = vec![
        probe(11_000, "dur=1"),
        probe(21_000, "dur=1"),
        probe(5_000, "dur=9"),
        probe(16_000, "dur=1"),
    ];
    let info = measure_latency(&probes).unwrap();
    assert_eq!(
        info,
        LatencyInfo {
            minimum: Some(10_000),
            maximum: Some(20_000),
            average: Some(Ratio { numerator: 45_000, denominator: 3 }),
            median: Some(Ratio { numerator: 15_000, denominator: 1 }),
            jitter: Some(Ratio { numerator: 15_000, denominator: 2 }),
        }
    );
}

#[test]
fn latency_summary_of_a_single_sample_has_no_jitter() {
    let info = measure_latency(&vec![probe(11_000, "dur=1")]).unwrap();
    assert_eq!(info.minimum, Some(10_000));
    assert_eq!(info.maximum, Some(10_000));
    assert_eq!(info.average, Some(Ratio { numerator: 10_000, denominator: 1 }));
    assert_eq!(info.median, Some(Ratio { numerator: 10_000, denominator: 1 }));
    assert_eq!(info.jitter, None);
}

#[test]
fn latency_without_samples_is_no_data() {
    assert_eq!(measure_latency(&Vec::new()), Err(MeasureError::NoData));
    assert_eq!(measure_latency(&vec![probe(50_000, "dur=80")]), Err(MeasureError::NoData));
}

#[test]
fn latency_fails_on_a_bad_header() {
    let probes = vec![probe(11_000, "dur=1"), probe(11_000, "nothing")];
    assert_eq!(measure_latency(&probes), Err(MeasureError::MalformedTiming));
    let large = vec![probe(11_000, "dur=99999999999999999999")];
    assert_eq!(measure_latency(&large), Err(MeasureError::TimingOutOfRange));
}

#[test]
fn latency_probe_count_defaults_to_twenty() {
    assert_eq!(latency_probe_count(None), 20);
    assert_eq!(latency_probe_count(Some(3)), 3);
    assert_eq!(latency_probe_count(Some(0)), 0);
}

#[test]
fn throughput_of_a_megabyte_in_a_second() {
    let bps = throughput(1_000_000, 1_000_000);
    assert_eq!(bps, 8_000_000);
    assert_eq!(bps as f64 / 1.0e6, 8.0);
}

#[test]
fn throughput_rounds_up_to_whole_bits_per_second() {
    assert_eq!(throughput(100_000, 3), 266_666_666_667);
    assert_eq!(throughput(1, 9_000_000), 1);
    assert_eq!(throughput(1, 8_000_000), 1);
    assert_eq!(throughput(1, 7_999_999), 2);
    assert_eq!(throughput(1, u64::MAX), 1);
    assert_eq!(throughput(u32::MAX, 1), 34_359_738_360_000_000);
}

#[test]
fn throughput_is_exact_where_the_time_divides_the_bits() {
    assert_eq!(throughput(1_000_000, 1_000_000), 8_000_000);
    assert_eq!(throughput(1_000_000, 2_000_000), 4_000_000);
    assert_eq!(throughput(25_000_000, 4_000_000), 50_000_000);
    assert_eq!(throughput(3, 8), 3_000_000);
}

#[test]
fn throughput_is_zero_only_for_an_empty_payload() {
    assert_eq!(throughput(0, 5), 0);
    assert_eq!(throughput(0, u64::MAX), 0);
    assert!(throughput(1, u64::MAX) > 0);
}

#[test]
fn slow_download_of_one_byte_is_not_zero() {
    let info = download(Some(1), &vec![probe(9_000_000, "0")]).unwrap();
    assert_eq!(
        info,
        SpeedInfo {
            minimum: Some(1),
            maximum: Some(1),
            average: Some(Ratio { numerator: 1, denominator: 1 }),
        }
    );
    let runs = vec![Run { payload_bytes: 1, probes: vec![probe(9_000_000, "0"), probe(3, "0")] }];
    let summaries = measure_speed(&runs).unwrap();
    assert_eq!(summaries[0].minimum, Some(1));
    assert_eq!(summaries[0].maximum, Some(2_666_667));
}

#[test]
fn download_summarises_throughput() {
    let probes = vec![
        probe(1_001_000, "dur=1"),
        probe(2_001_000, "dur=1"),
        probe(10, "dur=1"),
        probe(501_000, "dur=1"),
    ];
    assert_eq!(
        download(Some(1_000_000), &probes),
        Ok(SpeedInfo {
            minimum: Some(4_000_000),
            maximum: Some(16_000_000),
            average: Some(Ratio { numerator: 28_000_000, denominator: 3 }),
        })
    );
    assert_eq!(
        download(None, &probes),
        Ok(SpeedInfo {
            minimum: Some(0),
            maximum: Some(0),
            average: Some(Ratio { numerator: 0, denominator: 3 }),
        })
    );
    assert_eq!(download(Some(5), &Vec::new()), Err(MeasureError::NoData));
    assert_eq!(download(Some(5), &vec![probe(1, "dur")]), Err(MeasureError::MalformedTiming));
}

#[test]
fn download_profile_is_the_five_tier_plan() {
    assert_eq!(
        download_profile(),
        vec![
            ProfileEntry { payload_bytes: 100_000, repeat_count: 10 },
            ProfileEntry { payload_bytes: 1_000_000, repeat_count: 8 },
            ProfileEntry { payload_bytes: 10_000_000, repeat_count: 6 },
            ProfileEntry { payload_bytes: 25_000_000, repeat_count: 4 },
            ProfileEntry { payload_bytes: 100_000_000, repeat_count: 1 },
        ]
    );
}

#[test]
fn speed_summaries_follow_the_plan() {
    let runs = vec![
        Run { payload_bytes: 100_000, probes: vec![probe(101_000, "dur=1"), probe(201_000, "dur=1")] },
        Run { payload_bytes: 1_000_000, probes: vec![probe(1_000_500, "dur=0.5")] },
    ];
    let expected = vec![
        SpeedInfo {
            minimum: Some(4_000_000),
            maximum: Some(8_000_000),
            average: Some(Ratio { numerator: 12_000_000, denominator: 2 }),
        },
        SpeedInfo {
            minimum: Some(8_000_000),
            maximum: Some(8_000_000),
            average: Some(Ratio { numerator: 8_000_000, denominator: 1 }),
        },
    ];
    assert_eq!(measure_speed(&runs), Ok(expected.clone()));
    assert_eq!(measure_download(&runs), Ok(expected));
    assert_eq!(measure_speed(&Vec::new()), Ok(Vec::new()));
}

#[test]
fn speed_fails_with_the_first_failing_run() {
    let runs = vec![
        Run { payload_bytes: 100_000, probes: vec![probe(101_000, "dur=1")] },
        Run { payload_bytes: 1_000_000, probes: vec![probe(1, "dur=5")] },
        Run { payload_bytes: 1_000_000, probes: vec![probe(1, "dur=oops")] },
    ];
    assert_eq!(measure_speed(&runs), Err(MeasureError::NoData));
    assert_eq!(measure_download(&runs), Err(MeasureError::NoData));
}

#[test]
fn endpoint_urls_are_resolved_against_the_base() {
    assert_eq!(
        endpoint_url(Endpoint::Download),
        Some(String::from("https://speed.cloudflare.com/__down"))
    );
    assert_eq!(
        endpoint_url(Endpoint::Locations),
        Some(String::from("https://speed.cloudflare.com/locations"))
    );
    assert_eq!(
        endpoint_url(Endpoint::Trace),
        Some(String::from("https://speed.cloudflare.com/cdn-cgi/trace"))
    );
    assert_eq!(
        endpoint_url(Endpoint::Upload),
        Some(String::from("https://speed.cloudflare.com/__up"))
    );
}

#[test]
fn endpoint_paths() {
    assert_eq!(endpoint_path(Endpoint::Locations), "locations");
    assert_eq!(endpoint_path(Endpoint::Trace), "cdn-cgi/trace");
    assert_eq!(endpoint_path(Endpoint::Download), "__down");
    assert_eq!(endpoint_path(Endpoint::Upload), "__up");
}

#[test]
fn latency_line_shows_milliseconds() {
    let info = LatencyInfo {
        minimum: Some(10_000),
        maximum: Some(20_000),
        average: Some(Ratio { numerator: 45_000, denominator: 3 }),
        median: Some(Ratio { numerator: 15_000, denominator: 1 }),
        jitter: Some(Ratio { numerator: 15_000, denominator: 2 }),
    };
    assert_eq!(
        String::from_utf8(info.render().unwrap()).unwrap(),
        "Latency (avg/jitter):\t15.00 ms / 7.50 ms"
    );
}

#[test]
fn latency_line_needs_average_and_jitter() {
    let info = LatencyInfo {
        minimum: Some(10_000),
        maximum: Some(10_000),
        average: Some(Ratio { numerator: 10_000, denominator: 1 }),
        median: Some(Ratio { numerator: 10_000, denominator: 1 }),
        jitter: None,
    };
    assert_eq!(info.render(), None);
}

#[test]
fn speed_figure_shows_megabits_per_second() {
    let info = SpeedInfo {
        minimum: Some(4_000_000),
        maximum: Some(16_000_000),
        average: Some(Ratio { numerator: 28_000_000, denominator: 3 }),
    };
    assert_eq!(info.render(), Some(b"9.33".to_vec()));
    let none = SpeedInfo { minimum: None, maximum: None, average: None };
    assert_eq!(none.render(), None);
}

#[test]
fn figures_are_absent_for_unusable_fractions() {
    assert_eq!(write_figure(Some(Ratio { numerator: 5, denominator: 0 }), 1000), None);
    assert_eq!(write_figure(Some(Ratio { numerator: u128::MAX, denominator: 1 }), 1000), None);
    assert_eq!(write_figure(None, 1000), None);
    assert_eq!(
        write_figure(Some(Ratio { numerator: 8_000_000, denominator: 1 }), 1_000_000),
        Some(b"8.00".to_vec())
    );
}

fn text(value: &str) -> Json {
    Json::Text(value.as_bytes().to_vec())
}

fn member(key: &str, value: Json) -> Member {
    Member { key: key.as_bytes().to_vec(), value }
}

#[test]
fn location_table_reads_each_object() {
    let doc = Json::Array(vec![
        Json::Object(vec![
            member("cca2", text("US")),
            member("city", text("San Jose")),
            member("iata", text("SJC")),
            member("lat", Json::Number(b"37.3".to_vec())),
        ]),
        Json::Object(vec![member("iata", text("FRA")), member("city", text("Frankfurt"))]),
    ]);
    assert_eq!(
        location_table(&doc),
        Ok(vec![record("SJC", "San Jose"), record("FRA", "Frankfurt")])
    );
    assert_eq!(location_table(&Json::Array(Vec::new())), Ok(Vec::new()));
}

#[test]
fn location_table_rejects_other_shapes() {
    assert_eq!(location_table(&Json::Null), Err(ResolveError::MalformedTable));
    assert_eq!(location_table(&text("SJC")), Err(ResolveError::MalformedTable));
    assert_eq!(
        location_table(&Json::Object(Vec::new())),
        Err(ResolveError::MalformedTable)
    );
    assert_eq!(
        location_table(&Json::Array(vec![Json::Bool(true)])),
        Err(ResolveError::MalformedTable)
    );
    let no_city = Json::Array(vec![Json::Object(vec![member("iata", text("SJC"))])]);
    assert_eq!(location_table(&no_city), Err(ResolveError::MalformedTable));
    let no_iata = Json::Array(vec![Json::Object(vec![member("city", text("San Jose"))])]);
    assert_eq!(location_table(&no_iata), Err(ResolveError::MalformedTable));
    let numeric = Json::Array(vec![Json::Object(vec![
        member("iata", Json::Number(b"7".to_vec())),
        member("city", text("San Jose")),
    ])]);
    assert_eq!(location_table(&numeric), Err(ResolveError::MalformedTable));
}

#[test]
fn member_text_takes_the_first_of_equal_keys() {
    let members = vec![
        member("city", text("San Jose")),
        member("city", text("Santa Clara")),
        member("n", Json::Null),
    ];
    assert_eq!(member_text(&members, b"city"), Some(b"San Jose".to_vec()));
    assert_eq!(member_text(&members, b"n"), None);
    assert_eq!(member_text(&members, b"iata"), None);
}

#[test]
fn location_table_is_read_from_json_text() {
    let body = r#"[{"iata":"LAX","city":"Los Angeles","lat":33.9},
                   {"city":"San Jose","cca2":"US","iata":"SJC","region":null}]"#;
    assert_eq!(
        parse_location_table(body),
        Ok(vec![record("LAX", "Los Angeles"), record("SJC", "San Jose")])
    );
    assert_eq!(parse_location_table("[]"), Ok(Vec::new()));
    assert_eq!(parse_location_table("[{\"iata\":\"SJC\"}"), Err(ResolveError::MalformedTable));
    assert_eq!(parse_location_table(""), Err(ResolveError::MalformedTable));
    assert_eq!(parse_location_table("{}"), Err(ResolveError::MalformedTable));
    assert_eq!(parse_location_table("[{\"iata\":\"SJC\"}]"), Err(ResolveError::MalformedTable));
}

#[test]
fn server_info_from_the_two_response_bodies() {
    let table = parse_location_table(r#"[{"iata":"SJC","city":"San Jose"}]"#).unwrap();
    let info = get_server_info(b"colo=SJC\nip=1.2.3.4\nloc=US\n", &table).unwrap();
    assert_eq!(info.location, b"San Jose (SJC)".to_vec());
    assert_eq!(info.client_ip, b"1.2.3.4 (US)".to_vec());
    assert_eq!(
        String::from_utf8(info.render()).unwrap(),
        "Server Location:\tSan Jose (SJC)\nYour IP:\t\t1.2.3.4 (US)"
    );
}

#[test]
fn size_labels_of_the_plan() {
    let labels: Vec<Vec<u8>> =
        download_profile().iter().map(|entry| size_label(entry.payload_bytes)).collect();
    assert_eq!(
        labels,
        vec![
            b"100kB".to_vec(),
            b"1MB".to_vec(),
            b"10MB".to_vec(),
            b"25MB".to_vec(),
            b"100MB".to_vec(),
        ]
    );
}

#[test]
fn size_labels_fall_back_to_bytes() {
    assert_eq!(size_label(0), b"0B".to_vec());
    assert_eq!(size_label(999), b"999B".to_vec());
    assert_eq!(size_label(1_500), b"1500B".to_vec());
    assert_eq!(size_label(1_500_000), b"1500kB".to_vec());
    assert_eq!(size_label(u32::MAX), b"4294967295B".to_vec());
}
