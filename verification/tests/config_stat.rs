use reduction_server::config::Config;
use reduction_server::config::ConfigError;
use reduction_server::config::DataType;
use reduction_server::stat::print_stat;
use reduction_server::utils::round_up;
use reduction_server::utils::transpose;
use reduction_server::utils::vec_of_none;

fn base_config() -> Config {
    Config {
        verbose: false,
        client: false,
        bench: false,
        port: 8918,
        addresses: vec!["127.0.0.1:8918".to_string()],
        count: 1024,
        try_count: 100,
        reduce_threads: 2,
        reduce_jobs: 2,
        recv_threads: 4,
        send_threads: 4,
        nchannel: 1,
        nreq: 1,
        nrank: 4,
        data_type: DataType::F32,
        ring_rank: 0,
        upstream: String::new(),
    }
}

#[test]
fn test_validate_ok() {
    assert_eq!(base_config().validate(), Ok(()));
}

#[test]
fn test_validate_zero_value() {
    let mut c = base_config();
    c.nrank = 0;
    assert_eq!(c.validate(), Err(ConfigError::ZeroValue));
    let mut c = base_config();
    c.count = 0;
    assert_eq!(c.validate(), Err(ConfigError::ZeroValue));
}

#[test]
fn test_validate_mask_width() {
    let mut c = base_config();
    c.recv_threads = 64;
    c.nrank = 64;
    assert_eq!(c.validate(), Err(ConfigError::MaskWidth));
}

#[test]
fn test_validate_splits() {
    let mut c = base_config();
    c.nrank = 5;
    c.recv_threads = 2;
    c.send_threads = 5;
    assert_eq!(c.validate(), Err(ConfigError::RecvSplit));
    let mut c = base_config();
    c.nrank = 5;
    c.recv_threads = 5;
    c.send_threads = 2;
    assert_eq!(c.validate(), Err(ConfigError::SendSplit));
    let mut c = base_config();
    c.count = 1023;
    assert_eq!(c.validate(), Err(ConfigError::CountSplit));
}

#[test]
fn test_elem_sizes() {
    assert_eq!(DataType::F32.elem_size(), 4);
    assert_eq!(DataType::F16.elem_size(), 2);
    assert_eq!(DataType::Bf16.elem_size(), 2);
}

#[test]
fn test_print_stat_aggregator() {
    let c = base_config();
    // 100 passes in 1000 µs: 10 µs per pass; 1024 f32 elements are
    // 4096 bytes over one link; 4096 · 8 · 10^6 / 10 bits per second
    let s = print_stat(&c, 1000);
    assert_eq!(s.nsplit, 1);
    assert_eq!(s.elem_size, 4);
    assert_eq!(s.payload_bytes, 4096);
    assert_eq!(s.total_bytes, 4096);
    assert_eq!(s.latency_us, 10);
    assert_eq!(s.bandwidth_bps, Some(3_276_800_000));
}

#[test]
fn test_print_stat_ring_counts_ranks() {
    let mut c = base_config();
    c.ring_rank = 1;
    c.data_type = DataType::F16;
    let s = print_stat(&c, 1000);
    assert_eq!(s.elem_size, 2);
    assert_eq!(s.payload_bytes, 2048);
    // a ring pass moves every rank's tensor
    assert_eq!(s.total_bytes, 4 * 2048);
}

#[test]
fn test_print_stat_zero_latency() {
    let c = base_config();
    let s = print_stat(&c, 50); // 50 µs over 100 passes rounds to 0
    assert_eq!(s.latency_us, 0);
    assert_eq!(s.bandwidth_bps, None);
}

#[test]
fn test_transpose_matrix() {
    let m = vec![vec![1, 2, 3], vec![4, 5, 6]];
    assert_eq!(transpose(m), vec![vec![1, 4], vec![2, 5], vec![3, 6]]);
}

#[test]
fn test_vec_of_none_slots() {
    let v: Vec<Option<u32>> = vec_of_none(3);
    assert_eq!(v, vec![None, None, None]);
}

#[test]
fn test_round_up_to_page() {
    assert_eq!(round_up(1, 4096), 4096);
    assert_eq!(round_up(4096, 4096), 4096);
    assert_eq!(round_up(4097, 4096), 8192);
    assert_eq!(round_up(0, 4096), 0);
}
