use pibench_report::{
    BenchmarkOptions, BenchmarkResults, Decimal, KeyDistribution, LatencyResults,
};

#[test]
fn it_works() {
    assert_eq!(2 + 2, 4);
}

#[test]
fn parse_benchmark_results() {
    let sample_string = "Overview:
                                    Load time: 90801.3 milliseconds
                                    Run time: 79192.3672 milliseconds
                                    Throughput: 126274.7969 ops/s
                                PCM Metrics:
                                    L3 misses: 133342466
                                    DRAM Reads (bytes): 4197345472
                                    DRAM Writes (bytes): 3685394624
                                    NVM Reads (bytes): 60347831872
                                    NVM Writes (bytes): 11408209856
                                Samples:
                                ";
    let gt = BenchmarkResults {
        load_time: Decimal::plain(908013, 1),
        run_time: Decimal::plain(791923672, 4),
        throughput: Decimal::plain(1262747969, 4),
        l3_misses: Some(133342466),
        dram_reads: Some(4197345472),
        dram_writes: Some(3685394624),
        nvm_reads: Some(60347831872),
        nvm_writes: Some(11408209856),
        latency: None,
    };
    let result = BenchmarkResults::from_text(sample_string);
    assert!(result.is_ok());
    assert_eq!(result.unwrap(), gt);
}

#[test]
fn parse_latency_results() {
    let sample_string = "Latencies (998141 operations observed):
                                    min: 882
                                    50%: 7481
                                    90%: 9121
                                    99%: 43233
                                    99.9%: 51150
                                    99.99%: 69460
                                    99.999%: 16985300
                                    max: 22247728
                                ";
    let gt = LatencyResults {
        min: 882,
        p_50: 7481,
        p_90: 9121,
        p_99: 43233,
        p_99_9: 51150,
        p_99_99: 69460,
        p_99_999: 16985300,
        max: 22247728,
    };
    let latency = LatencyResults::from_text(sample_string);
    assert!(latency.is_ok());
    assert_eq!(latency.unwrap().unwrap(), gt);
}

#[test]
fn parse_benchmark_options() {
    let sample_string = "Benchmark Options:
                                    Target: /home/hao/coding/bztree/release/libbztree_pibench_wrapper.so
                                    # Records: 10000000
                                    # Operations: 10000000
                                    # Threads: 1
                                    Sampling: 1000 ms
                                    Latency: 0.1
                                    Key prefix:
                                    Key size: 8
                                    Value size: 8
                                    Random seed: 1729
                                    Key distribution: UNIFORM
                                    Scan size: 100
                                    Operations ratio:
                                        Read: 0.2
                                        Insert: 0.8
                                        Update: 0
                                        Delete: 0
                                        Scan: 0
                                creating new tree on pool.
                                ";
    let gt = BenchmarkOptions {
        records: 10000000,
        operations: 10000000,
        threads: 1,
        sampling: 1000,
        latency: Decimal::plain(1, 1),
        key_size: 8,
        value_size: 8,
        random_seed: 1729,
        key_distribution: KeyDistribution::UNIFORM,
        scan: Decimal::plain(0, 0),
        read: Decimal::plain(2, 1),
        insert: Decimal::plain(8, 1),
        update: Decimal::plain(0, 0),
        delete: Decimal::plain(0, 0),
    };
    let options = BenchmarkOptions::from_text(sample_string);
    assert!(options.is_ok());
    assert_eq!(options.unwrap(), gt);
}
