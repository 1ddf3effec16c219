use speedtest_rs::distance::{compute_distance, EarthLocation};
use speedtest_rs::error::SpeedTestError;
use speedtest_rs::share::{
    build_share_body, parse_share_request_response_id, share_result_url, SpeedTestResult,
};
use speedtest_rs::speedtest::{
    best_candidate, build_download_urls, build_upload_sizes, cache_busted_url, download_url,
    latency_url, one_way_latency_micros, should_continue, total_transferred,
    updated_upload_threads, upload_body, CandidateOutcome, SpeedMeasurement,
    SpeedTestLatencyTestResult, SpeedTestServer,
};
use speedtest_rs::speedtest_config::SpeedTestConfig;
use speedtest_rs::speedtest_servers_config::SpeedTestServersConfig;

fn fixture_server(id: u32) -> SpeedTestServer {
    SpeedTestServer {
        country: "".to_owned(),
        host: "".to_owned(),
        id,
        location: EarthLocation {
            latitude: 0,
            longitude: 0,
        },
        distance: None,
        name: "".to_owned(),
        sponsor: "".to_owned(),
        url: "".to_owned(),
    }
}

#[test]
fn test_distance() {
    // (32.9545, -117.2333) to (70.0733, 29.7497), in micro-degrees.
    let origin = EarthLocation {
        latitude: 32_954_500,
        longitude: -117_233_300,
    };
    let destination = EarthLocation {
        latitude: 70_073_300,
        longitude: 29_749_700,
    };
    let metres = compute_distance(&origin, &destination);
    let diff = metres.abs_diff(8_255_100);
    println!("distance: {metres} diff: {diff}");
    assert!(diff < 200);
}

#[test]
fn test_distance_zero_and_symmetric() {
    let a = EarthLocation {
        latitude: 32_954_500,
        longitude: -117_233_300,
    };
    let b = EarthLocation {
        latitude: 70_073_300,
        longitude: 29_749_700,
    };
    assert_eq!(compute_distance(&a, &a), 0);
    assert_eq!(compute_distance(&b, &b), 0);
    assert_eq!(compute_distance(&a, &b), compute_distance(&b, &a));
}

#[test]
fn test_parse_share_request_response_id() {
    let resp = "resultid=4932415710&date=12%2F21%2F2015&time=5%3A10+AM&rating=0".as_bytes();
    assert_eq!(parse_share_request_response_id(resp).unwrap(), "4932415710");
}

#[test]
fn test_parse_share_request_response_id_absent() {
    let resp = "date=12%2F21%2F2015&rating=0".as_bytes();
    assert_eq!(
        parse_share_request_response_id(resp),
        Err(SpeedTestError::ParseShareUrlError)
    );
    assert_eq!(
        parse_share_request_response_id(b""),
        Err(SpeedTestError::ParseShareUrlError)
    );
}

#[test]
fn test_parse_share_request_response_id_decodes() {
    let resp = "a=b&resultid=x%41+y&rest=1".as_bytes();
    assert_eq!(parse_share_request_response_id(resp).unwrap(), "xA y");
}

#[test]
fn test_share_url_hash() {
    let download_measurement = SpeedMeasurement {
        size: 6096 * 100,
        duration_micros: 1_000_000,
    };
    let upload_measurement = SpeedMeasurement {
        size: 1861 * 100,
        duration_micros: 1_000_000,
    };
    let server = fixture_server(5116);
    let latency_measurement = SpeedTestLatencyTestResult {
        server: &server,
        latency_micros: 26_000,
    };
    let request = SpeedTestResult {
        download_measurement: Some(&download_measurement),
        upload_measurement: Some(&upload_measurement),
        server: &server,
        latency_measurement: &latency_measurement,
    };
    assert_eq!(request.hash(), "f10eb3dd8d3c38a221e823d859680045");
}

#[test]
fn test_construct_share_form() {}

#[test]
fn test_share_body_exact() {
    let download_measurement = SpeedMeasurement {
        size: 6096 * 100,
        duration_micros: 1_000_000,
    };
    let upload_measurement = SpeedMeasurement {
        size: 1861 * 100,
        duration_micros: 1_000_000,
    };
    let server = fixture_server(5116);
    let latency_measurement = SpeedTestLatencyTestResult {
        server: &server,
        latency_micros: 26_000,
    };
    let request = SpeedTestResult {
        download_measurement: Some(&download_measurement),
        upload_measurement: Some(&upload_measurement),
        server: &server,
        latency_measurement: &latency_measurement,
    };
    let body = build_share_body(&request);
    assert_eq!(
        body,
        "download=4876&ping=26&upload=1488&promo=&startmode=pingselect&\
         recommendedserverid=5116&accuracy=1&serverid=5116&\
         hash=f10eb3dd8d3c38a221e823d859680045"
    );
}

#[test]
fn test_share_result_url() {
    assert_eq!(
        share_result_url("4932415710"),
        "http://www.speedtest.net/result/4932415710.png"
    );
}

#[test]
fn test_kbps() {
    let m = SpeedMeasurement {
        size: 609_600,
        duration_micros: 1_000_000,
    };
    assert_eq!(m.kbps(), 4876);
}

#[test]
fn test_latency_url_cases() {
    assert_eq!(
        latency_url("http://example.com/speedtest/upload.php").unwrap(),
        "http://example.com/speedtest/latency.txt"
    );
    assert_eq!(
        latency_url("nopath"),
        Err(SpeedTestError::LatencyTestInvalidPath)
    );
}

#[test]
fn test_one_way_latency() {
    // Three round trips of 30, 60 and 90 ms: one-way estimate 30 ms.
    let samples = vec![30_000u64, 60_000, 90_000];
    assert_eq!(one_way_latency_micros(&samples), 30_000);
}

#[test]
fn test_best_candidate_skips_failed() {
    // The nearest candidate lost a sample, so it is excluded outright; the
    // winner is the next candidate whose samples all succeeded.
    let outcomes = vec![
        CandidateOutcome::Abandoned,
        CandidateOutcome::Latency(40_000),
        CandidateOutcome::Latency(35_000),
    ];
    assert_eq!(best_candidate(&outcomes).unwrap(), 2);
    let outcomes2 = vec![
        CandidateOutcome::Abandoned,
        CandidateOutcome::Latency(35_000),
        CandidateOutcome::Latency(40_000),
    ];
    assert_eq!(best_candidate(&outcomes2).unwrap(), 1);
}

#[test]
fn test_best_candidate_errors() {
    let empty: Vec<CandidateOutcome> = vec![];
    assert_eq!(
        best_candidate(&empty),
        Err(SpeedTestError::LatencyTestNoServerError)
    );
    let all_failed = vec![CandidateOutcome::Abandoned, CandidateOutcome::Abandoned];
    assert_eq!(
        best_candidate(&all_failed),
        Err(SpeedTestError::LatencyTestClosestError)
    );
    let no_paths = vec![CandidateOutcome::NoPath, CandidateOutcome::NoPath];
    assert_eq!(
        best_candidate(&no_paths),
        Err(SpeedTestError::LatencyTestInvalidPath)
    );
    let mixed = vec![CandidateOutcome::NoPath, CandidateOutcome::Abandoned];
    assert_eq!(
        best_candidate(&mixed),
        Err(SpeedTestError::LatencyTestClosestError)
    );
}

#[test]
fn test_best_candidate_first_of_ties() {
    let outcomes = vec![
        CandidateOutcome::Latency(5),
        CandidateOutcome::Latency(5),
        CandidateOutcome::Latency(9),
    ];
    assert_eq!(best_candidate(&outcomes).unwrap(), 0);
}

#[test]
fn test_download_urls() {
    let urls = build_download_urls("http://h/s/upload.php", &vec![350, 500], 2);
    assert_eq!(
        urls,
        vec![
            "http://h/s/upload.php/random350x350.jpg".to_owned(),
            "http://h/s/upload.php/random350x350.jpg".to_owned(),
            "http://h/s/upload.php/random500x500.jpg".to_owned(),
            "http://h/s/upload.php/random500x500.jpg".to_owned(),
        ]
    );
    assert_eq!(
        download_url("http://h", 4000),
        "http://h/random4000x4000.jpg"
    );
}

#[test]
fn test_cache_busted_url() {
    assert_eq!(
        cache_busted_url("http://h/random350x350.jpg", 1700000000123, 7),
        "http://h/random350x350.jpg?x=1700000000123.7"
    );
    assert_eq!(
        cache_busted_url("http://h/a.jpg?k=v", 5, 0),
        "http://h/a.jpg?k=v&x=5.0"
    );
}

#[test]
fn test_upload_sizes_capped() {
    let sizes = build_upload_sizes(&vec![524288, 1048576], 3, 4);
    assert_eq!(sizes, vec![524288, 524288, 524288, 1048576]);
    let uncapped = build_upload_sizes(&vec![32768], 2, 50);
    assert_eq!(uncapped, vec![32768, 32768]);
}

#[test]
fn test_upload_body_shape() {
    let body = upload_body(50);
    assert_eq!(body.len(), 50);
    assert!(body.starts_with(b"content1="));
    assert_eq!(&body[9..19], b"0123456789");
    assert_eq!(&body[19..45], b"ABCDEFGHIJKLMNOPQRSTUVWXYZ");
    // The filler cycles after thirty-six characters.
    assert_eq!(body[45], b'0');
    let tiny = upload_body(4);
    assert_eq!(tiny, b"cont".to_vec());
}

#[test]
fn test_total_transferred() {
    assert_eq!(total_transferred(&vec![10, 20, 30]), Some(60));
    assert_eq!(total_transferred(&vec![]), Some(0));
    assert_eq!(total_transferred(&vec![usize::MAX, 1]), None);
}

#[test]
fn test_should_continue() {
    assert!(should_continue(5, 10, false));
    assert!(!should_continue(10, 10, false));
    assert!(!should_continue(5, 10, true));
}

#[test]
fn test_updated_upload_threads() {
    // Thirteen megabytes in one second is above a hundred megabits per
    // second, so the upload pool is widened.
    let fast = SpeedMeasurement {
        size: 13_000_000,
        duration_micros: 1_000_000,
    };
    assert_eq!(updated_upload_threads(&fast, 2), 8);
    let slow = SpeedMeasurement {
        size: 1_000_000,
        duration_micros: 1_000_000,
    };
    assert_eq!(updated_upload_threads(&slow, 2), 2);
}

#[test]
fn test_sum_of_parts_with_early_termination() {
    // Tasks stopped by the early-termination flag contribute the bytes they
    // had read, and the total is still the exact sum of the parts.
    let finished: Vec<usize> = vec![10240, 10240, 512];
    let stopped_early: Vec<usize> = vec![10240, 0, 512];
    assert_eq!(total_transferred(&finished), Some(20992));
    assert_eq!(total_transferred(&stopped_early), Some(10752));
}

fn sample_config_xml() -> String {
    "<?xml version=\"1.0\" encoding=\"UTF-8\"?>\n<settings>\n<client ip=\"174.79.12.26\" lat=\"32.9954\" lon=\"-117.0753\" isp=\"Cox Communications\" isprating=\"3.7\" rating=\"0\" ispdlavg=\"20000\" ispulavg=\"5000\" loggedin=\"0\" country=\"US\" />\n<server-config threadcount=\"4\" ignoreids=\"10385,16475\" notonmap=\"0\" forcepingid=\"\" preferredserverid=\"\" />\n<download testlength=\"10\" initialtest=\"250K\" mintestsize=\"250K\" threadsperurl=\"4\" />\n<upload testlength=\"10\" ratio=\"5\" initialtest=\"0\" mintestsize=\"32K\" threads=\"2\" maxchunksize=\"512K\" maxchunkcount=\"50\" uploadmax=\"600\" initialtestsize=\"0\" />\n</settings>\n"
    .to_owned()
}

#[test]
fn test_parse_config_xml() {
    let config = SpeedTestConfig::parse(&sample_config_xml()).unwrap();
    assert_eq!("174.79.12.26", config.client.ip.to_display_string());
    assert_eq!(
        EarthLocation {
            latitude: 32_995_400,
            longitude: -117_075_300,
        },
        config.location
    );
    assert_eq!("Cox Communications", config.client.isp);
    assert_eq!(config.ignore_servers, vec![10385, 16475]);
    assert_eq!(config.sizes.upload, vec![524288, 1048576, 7340032]);
    assert_eq!(config.sizes.download.len(), 10);
    assert_eq!(config.counts.upload, 17);
    assert_eq!(config.counts.download, 4);
    assert_eq!(config.threads.upload, 2);
    assert_eq!(config.threads.download, 8);
    assert_eq!(config.length.upload, 10);
    assert_eq!(config.length.download, 10);
    assert_eq!(config.upload_max, 50);
}

#[test]
fn test_parse_config_xml_83() {
    // A later revision of the configuration document: other orderings and
    // values, the same required attributes.
    let doc = "<?xml version=\"1.0\" encoding=\"UTF-8\"?>\n<settings>\n<client ip=\"174.79.12.26\" lat=\"32.9954\" lon=\"-117.0753\" isp=\"Cox Communications\" country=\"US\" />\n<server-config ignoreids=\"\" threadcount=\"2\"/>\n<download threadsperurl=\"2\" testlength=\"15\"/>\n<upload ratio=\"1\" maxchunkcount=\"10\" threads=\"4\" testlength=\"15\"/>\n</settings>\n";
    let config = SpeedTestConfig::parse(doc).unwrap();
    assert_eq!("Cox Communications", config.client.isp);
    assert_eq!(config.ignore_servers, Vec::<u32>::new());
    assert_eq!(config.sizes.upload.len(), 7);
    assert_eq!(config.counts.upload, 2);
}

#[test]
fn test_parse_config_errors() {
    assert!(matches!(
        SpeedTestConfig::parse("<settings/>"),
        Err(SpeedTestError::ConfigParseError)
    ));
    // A non-numeric ignored identifier fails the whole parse.
    let bad_ids = sample_config_xml().replace("10385,16475", "10385,abc");
    assert!(matches!(
        SpeedTestConfig::parse(&bad_ids),
        Err(SpeedTestError::ConfigParseError)
    ));
    // Empty runs between commas are passed over.
    let sparse_ids = sample_config_xml().replace("10385,16475", ",10385,,16475,");
    let config = SpeedTestConfig::parse(&sparse_ids).unwrap();
    assert_eq!(config.ignore_servers, vec![10385, 16475]);
    // A ratio outside the size table fails the parse.
    let bad_ratio = sample_config_xml().replace("ratio=\"5\"", "ratio=\"8\"");
    assert!(matches!(
        SpeedTestConfig::parse(&bad_ratio),
        Err(SpeedTestError::ConfigParseError)
    ));
    let zero_ratio = sample_config_xml().replace("ratio=\"5\"", "ratio=\"0\"");
    assert!(matches!(
        SpeedTestConfig::parse(&zero_ratio),
        Err(SpeedTestError::ConfigParseError)
    ));
    // A malformed client address fails the parse.
    let bad_ip = sample_config_xml().replace("174.79.12.26", "174.79.12");
    assert!(matches!(
        SpeedTestConfig::parse(&bad_ip),
        Err(SpeedTestError::ConfigParseError)
    ));
    // A latitude beyond the poles fails the parse.
    let bad_lat = sample_config_xml().replace("32.9954", "95.0001");
    assert!(matches!(
        SpeedTestConfig::parse(&bad_lat),
        Err(SpeedTestError::ConfigParseError)
    ));
    // A missing required attribute fails the parse.
    let no_threads = sample_config_xml().replace("threads=\"2\"", "");
    assert!(matches!(
        SpeedTestConfig::parse(&no_threads),
        Err(SpeedTestError::ConfigParseError)
    ));
}

fn sample_spt_config() -> SpeedTestConfig {
    // Somewhere in southern California.
    SpeedTestConfig {
        location: EarthLocation {
            latitude: 32_995_400,
            longitude: -117_075_300,
        },
        ..SpeedTestConfig::default()
    }
}

fn sample_servers_xml() -> String {
    "<?xml version=\"1.0\" encoding=\"UTF-8\"?>\n<settings>\n<servers>\n<server url=\"http://la.example.net/speedtest/upload.php\" lat=\"34.0522\" lon=\"-118.2437\" name=\"Los Angeles, CA\" country=\"United States\" cc=\"US\" sponsor=\"Alpha Networks\" id=\"5905\" host=\"la.example.net:8080\" />\n<server url=\"http://phx.example.net/speedtest/upload.php\" lat=\"33.4484\" lon=\"-112.0740\" name=\"Phoenix, AZ\" country=\"United States\" cc=\"US\" sponsor=\"Beta Carrier\" id=\"1001\" host=\"phx.example.net:8080\" />\n<server url=\"http://sfo.example.net/speedtest/upload.php\" lat=\"37.7749\" lon=\"-122.4194\" name=\"San Francisco, CA\" country=\"United States\" cc=\"US\" sponsor=\"Gamma Telecom\" id=\"1002\" host=\"sfo.example.net:8080\" />\n<server url=\"http://den.example.net/speedtest/upload.php\" lat=\"39.7392\" lon=\"-104.9903\" name=\"Denver, CO\" country=\"United States\" cc=\"US\" sponsor=\"Delta Online\" id=\"1003\" host=\"den.example.net:8080\" />\n<server url=\"http://nyc.example.net/speedtest/upload.php\" lat=\"40.7128\" lon=\"-74.0060\" name=\"New York, NY\" country=\"United States\" cc=\"US\" sponsor=\"Epsilon Net\" id=\"1004\" host=\"nyc.example.net:8080\" />\n<server url=\"http://lon.example.net/speedtest/upload.php\" lat=\"51.5074\" lon=\"-0.1278\" name=\"London\" country=\"United Kingdom\" cc=\"GB\" sponsor=\"Zeta Broadband\" id=\"1005\" host=\"lon.example.net:8080\" />\n<server url=\"http://tyo.example.net/speedtest/upload.php\" lat=\"35.6762\" lon=\"139.6503\" name=\"Tokyo\" country=\"Japan\" cc=\"JP\" sponsor=\"Eta Communications\" id=\"1006\" host=\"tyo.example.net:8080\" />\n<server url=\"http://bad.example.net/speedtest/upload.php\" lon=\"10.0\" name=\"No Latitude\" country=\"Nowhere\" cc=\"XX\" sponsor=\"Broken\" id=\"1007\" host=\"bad.example.net:8080\" />\n<server url=\"http://bad2.example.net/speedtest/upload.php\" lat=\"10.0\" lon=\"10.0\" name=\"Bad Identifier\" country=\"Nowhere\" cc=\"XX\" sponsor=\"Broken\" id=\"x9\" host=\"bad2.example.net:8080\" />\n</servers>\n</settings>\n"
    .to_owned()
}

#[test]
fn test_parse_speedtest_servers_xml() {
    let spt_config = sample_spt_config();
    let config_str = sample_servers_xml();

    let server_config =
        SpeedTestServersConfig::parse_with_config(&config_str, &spt_config).unwrap();
    assert!(server_config.servers.len() > 5);
    let server = server_config.servers.get(1).unwrap();
    assert!(!server.url.is_empty());
    assert!(!server.country.is_empty());
    // The malformed entries were dropped silently.
    assert_eq!(server_config.servers.len(), 7);
    assert!(server_config.servers.iter().all(|s| s.distance.is_some()));
}

#[test]
fn test_parse_speedtest_servers_xml_with_ignore_servers() {
    let spt_config = SpeedTestConfig {
        ignore_servers: vec![5905],
        ..sample_spt_config()
    };
    let config_str = sample_servers_xml();

    let server_config =
        SpeedTestServersConfig::parse_with_config(&config_str, &spt_config).unwrap();
    assert!(server_config.servers.iter().all(|s| s.id != 5905));
    assert!(server_config.servers.len() > 5);
    let server = server_config.servers.get(1).unwrap();
    assert!(!server.url.is_empty());
    assert!(!server.country.is_empty());
}

#[test]
fn test_fastest_server() {
    let spt_config = sample_spt_config();
    let config_str = sample_servers_xml();

    let config = SpeedTestServersConfig::parse_with_config(&config_str, &spt_config).unwrap();
    let sorted = config.servers_sorted_by_distance(&spt_config);
    let closest_server = &sorted[0];
    assert_eq!("Los Angeles, CA", closest_server.name);
    // The whole ranking is non-decreasing in distance.
    for pair in sorted.windows(2) {
        let a = compute_distance(&spt_config.location, &pair[0].location);
        let b = compute_distance(&spt_config.location, &pair[1].location);
        assert!(a <= b);
    }
}

#[test]
fn test_sorted_ties_keep_input_order() {
    // Two servers at the same spot: the earlier entry stays first.
    let spt_config = sample_spt_config();
    let twin = |id: u32, name: &str| SpeedTestServer {
        country: "United States".to_owned(),
        host: "twin.example.net:8080".to_owned(),
        id,
        location: EarthLocation {
            latitude: 34_052_200,
            longitude: -118_243_700,
        },
        distance: None,
        name: name.to_owned(),
        sponsor: "Twin".to_owned(),
        url: "http://twin.example.net/speedtest/upload.php".to_owned(),
    };
    let config = SpeedTestServersConfig {
        servers: vec![twin(1, "first"), twin(2, "second")],
    };
    let sorted = config.servers_sorted_by_distance(&spt_config);
    assert_eq!(sorted[0].id, 1);
    assert_eq!(sorted[1].id, 2);
}
