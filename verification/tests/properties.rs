use pibench_report::{
    format_options, parse, BenchmarkOptions, BenchmarkResults, Decimal, Field, KeyDistribution,
    LatencyResults, ParseError,
};

fn sample_options() -> BenchmarkOptions {
    BenchmarkOptions {
        records: 10000000,
        operations: 10000000,
        threads: 1,
        sampling: 1000,
        latency: Decimal::plain(1, 1),
        key_size: 8,
        value_size: 8,
        random_seed: 1729,
        key_distribution: KeyDistribution::UNIFORM,
        read: Decimal::plain(2, 1),
        insert: Decimal::plain(8, 1),
        update: Decimal::plain(0, 0),
        delete: Decimal::plain(0, 0),
        scan: Decimal::plain(0, 0),
    }
}

#[test]
fn options_round_trip_uniform() {
    let gt = sample_options();
    let text = format_options(&gt);
    let parsed = BenchmarkOptions::from_text(&text);
    assert_eq!(parsed.unwrap(), gt);
}

#[test]
fn options_round_trip_zipfian() {
    let mut gt = sample_options();
    gt.key_distribution = KeyDistribution::ZIPFIAN;
    gt.records = 0;
    gt.latency = Decimal::plain(25, 3);
    let text = format_options(&gt);
    let parsed = BenchmarkOptions::from_text(&text);
    assert_eq!(parsed.unwrap(), gt);
}

#[test]
fn options_format_is_exact() {
    let text = format_options(&sample_options());
    let expected = "\n# Records: 10000000\n# Operations: 10000000\n# Threads: 1\nSampling: 1000 ms\nLatency: 0.1\nKey size: 8\nValue size: 8\nRandom seed: 1729\nKey distribution: UNIFORM\nRead: 0.2\nInsert: 0.8\nUpdate: 0\nDelete: 0\nScan: 0";
    assert_eq!(text, expected);
}

#[test]
fn zipfian_word_maps_to_zipfian() {
    let sample_string = "Benchmark Options:
                                    Target: /home/hao/coding/bztree/release/libbztree_pibench_wrapper.so
                                    # Records: 10000000
                                    # Operations: 10000000
                                    # Threads: 1
                                    Sampling: 1000 ms
                                    Latency: 0.1
                                    Key prefix:
                                    Key size: 8
                                    Value size: 8
                                    Random seed: 1729
                                    Key distribution: ZIPFIAN
                                    Scan size: 100
                                    Operations ratio:
                                        Read: 0.2
                                        Insert: 0.8
                                        Update: 0
                                        Delete: 0
                                        Scan: 0
                                creating new tree on pool.
                                ";
    let options = BenchmarkOptions::from_text(sample_string).unwrap();
    assert_eq!(options.key_distribution, KeyDistribution::ZIPFIAN);
    assert_eq!(options.records, 10000000);
    assert_eq!(options.random_seed, 1729);
}

#[test]
fn unknown_distribution_is_reported() {
    let sample_string = "# Records: 1
                                    # Operations: 1
                                    # Threads: 1
                                    Sampling: 1000 ms
                                    Latency: 0.1
                                    Key size: 8
                                    Value size: 8
                                    Random seed: 1729
                                    Key distribution: GAUSSIAN
                                        Read: 0.2
                                        Insert: 0.8
                                        Update: 0
                                        Delete: 0
                                        Scan: 0
                                ";
    let err = BenchmarkOptions::from_text(sample_string).unwrap_err();
    assert_eq!(err, ParseError::UnknownDistribution(String::from("GAUSSIAN")));
}

#[test]
fn latency_absent_header_is_none() {
    let text = "no tail data of any kind in this report";
    assert_eq!(LatencyResults::from_text(text), Ok(None));
}

#[test]
fn latency_out_of_order_parses_and_is_flagged() {
    let sample_string = "Latencies (10 operations observed):
                                    min: 900
                                    50%: 700
                                    90%: 9121
                                    99%: 43233
                                    99.9%: 51150
                                    99.99%: 69460
                                    99.999%: 16985300
                                    max: 22247728
                                ";
    let latency = LatencyResults::from_text(sample_string).unwrap().unwrap();
    assert!(!latency.is_monotonic());
}

#[test]
fn latency_in_order_is_monotonic() {
    let sample_string = "Latencies (998141 operations observed):
                                    min: 882
                                    50%: 7481
                                    90%: 9121
                                    99%: 43233
                                    99.9%: 51150
                                    99.99%: 69460
                                    99.999%: 16985300
                                    max: 22247728
                                ";
    let latency = LatencyResults::from_text(sample_string).unwrap().unwrap();
    assert!(latency.is_monotonic());
}

#[test]
fn latency_malformed_value_is_an_error() {
    let sample_string = "Latencies:
                                    min: 99999999999
                                    50%: 7481
                                    90%: 9121
                                    99%: 43233
                                    99.9%: 51150
                                    99.99%: 69460
                                    99.999%: 16985300
                                    max: 22247728
                                ";
    let err = LatencyResults::from_text(sample_string).unwrap_err();
    assert_eq!(err, ParseError::MalformedNumber(Field::LatencyMin));
}

#[test]
fn latency_truncated_block_is_an_error() {
    let sample_string = "Latencies (10 operations observed):
                                    min: 882
                                    50%: 7481
                                ";
    let err = LatencyResults::from_text(sample_string).unwrap_err();
    assert_eq!(err, ParseError::PatternNotMatched);
}

#[test]
fn missing_throughput_is_pattern_not_matched() {
    let sample_string = "Overview:
                                    Load time: 90801.3 milliseconds
                                    Run time: 79192.3672 milliseconds
                                PCM Metrics:
                                    L3 misses: 133342466
                                ";
    let err = BenchmarkResults::from_text(sample_string).unwrap_err();
    assert_eq!(err, ParseError::PatternNotMatched);
}

#[test]
fn counter_at_u64_max_is_exact() {
    let sample_string = "Load time: 1 milliseconds
                                    Run time: 2 milliseconds
                                    Throughput: 3 ops/s
                                    L3 misses: 18446744073709551615
                                ";
    let results = BenchmarkResults::from_text(sample_string).unwrap();
    assert_eq!(results.l3_misses, Some(18446744073709551615u64));
    assert_eq!(results.dram_reads, None);
    assert_eq!(results.dram_writes, None);
    assert_eq!(results.nvm_reads, None);
    assert_eq!(results.nvm_writes, None);
}

#[test]
fn counter_above_u64_max_is_malformed() {
    let sample_string = "Load time: 1 milliseconds
                                    Run time: 2 milliseconds
                                    Throughput: 3 ops/s
                                    L3 misses: 18446744073709551616
                                ";
    let err = BenchmarkResults::from_text(sample_string).unwrap_err();
    assert_eq!(err, ParseError::MalformedNumber(Field::L3Misses));
}

#[test]
fn absent_counters_are_not_zero() {
    let sample_string = "Load time: 90801.3 milliseconds
                                    Run time: 79192.3672 milliseconds
                                    Throughput: 126274.7969 ops/s
                                ";
    let results = BenchmarkResults::from_text(sample_string).unwrap();
    assert_eq!(results.l3_misses, None);
    assert_eq!(results.latency, None);
    assert_eq!(results.load_time, Decimal::plain(908013, 1));
    assert_eq!(results.run_time, Decimal::plain(791923672, 4));
    assert_eq!(results.throughput, Decimal::plain(1262747969, 4));
}

#[test]
fn scientific_notation_is_kept_exactly() {
    let sample_string = "Load time: 1.5e3 milliseconds
                                    Run time: -2.5 milliseconds
                                    Throughput: 4E-2 ops/s
                                ";
    let results = BenchmarkResults::from_text(sample_string).unwrap();
    assert_eq!(
        results.load_time,
        Decimal { neg: false, mantissa: 15, scale: 1, exp: 3 },
    );
    assert_eq!(
        results.run_time,
        Decimal { neg: true, mantissa: 25, scale: 1, exp: 0 },
    );
    assert_eq!(
        results.throughput,
        Decimal { neg: false, mantissa: 4, scale: 0, exp: -2 },
    );
}

#[test]
fn sampling_overflow_is_malformed() {
    let sample_string = "# Records: 1
                                    # Operations: 1
                                    # Threads: 1
                                    Sampling: 99999999999 ms
                                    Latency: 0.1
                                    Key size: 8
                                    Value size: 8
                                    Random seed: 1729
                                    Key distribution: UNIFORM
                                        Read: 0.2
                                        Insert: 0.8
                                        Update: 0
                                        Delete: 0
                                        Scan: 0
                                ";
    let err = BenchmarkOptions::from_text(sample_string).unwrap_err();
    assert_eq!(err, ParseError::MalformedNumber(Field::Sampling));
}

#[test]
fn options_missing_label_is_pattern_not_matched() {
    let sample_string = "# Records: 1
                                    # Operations: 1
                                ";
    let err = BenchmarkOptions::from_text(sample_string).unwrap_err();
    assert_eq!(err, ParseError::PatternNotMatched);
}

#[test]
fn parse_combines_both_sections() {
    let sample_string = "Benchmark Options:
                                    # Records: 10000000
                                    # Operations: 10000000
                                    # Threads: 1
                                    Sampling: 1000 ms
                                    Latency: 0.1
                                    Key size: 8
                                    Value size: 8
                                    Random seed: 1729
                                    Key distribution: UNIFORM
                                    Scan size: 100
                                    Operations ratio:
                                        Read: 0.2
                                        Insert: 0.8
                                        Update: 0
                                        Delete: 0
                                        Scan: 0
                                Overview:
                                    Load time: 90801.3 milliseconds
                                    Run time: 79192.3672 milliseconds
                                    Throughput: 126274.7969 ops/s
                                ";
    let report = parse(sample_string).unwrap();
    assert_eq!(report.benchmark_options.records, 10000000);
    assert_eq!(report.benchmark_options.key_distribution, KeyDistribution::UNIFORM);
    assert_eq!(report.benchmark_results.throughput, Decimal::plain(1262747969, 4));
    assert_eq!(report.benchmark_results.latency, None);
}

#[test]
fn parse_propagates_the_first_failure() {
    let sample_string = "Load time: 1 milliseconds
                                    Run time: 2 milliseconds
                                    Throughput: 3 ops/s
                                ";
    let err = parse(sample_string).unwrap_err();
    assert_eq!(err, ParseError::PatternNotMatched);
}

#[test]
fn empty_latency_value_is_malformed() {
    let sample_string = "# Records: 1
                                    # Operations: 1
                                    # Threads: 1
                                    Sampling: 1000 ms
                                    Latency: none
                                    Key size: 8
                                    Value size: 8
                                    Random seed: 1729
                                    Key distribution: UNIFORM
                                        Read: 0.2
                                        Insert: 0.8
                                        Update: 0
                                        Delete: 0
                                        Scan: 0
                                ";
    let err = BenchmarkOptions::from_text(sample_string).unwrap_err();
    assert_eq!(err, ParseError::MalformedNumber(Field::Latency));
}

#[test]
fn proportions_in_unit_interval_pass_validation() {
    let gt = sample_options();
    assert!(gt.check_proportions());
}

#[test]
fn proportion_above_one_is_flagged() {
    let mut gt = sample_options();
    gt.read = Decimal::plain(15, 1);
    assert!(!gt.check_proportions());
    gt.read = Decimal::plain(10, 1);
    assert!(gt.check_proportions());
}
