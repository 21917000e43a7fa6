use hashmin::args::{Args, ValidationError};
use hashmin::codec::push_nonce;
use hashmin::hash::{is_less, worker, Report};
use sha2::{Digest, Sha256};

fn oracle(preimage: &str) -> Vec<u8> {
    Sha256::digest(preimage.as_bytes()).as_slice().to_vec()
}

fn encoded(value: u64) -> Vec<u8> {
    let mut buf = Vec::new();
    assert!(push_nonce(&mut buf, value, 64));
    buf
}

fn decoded(bytes: &[u8]) -> u64 {
    let alphabet = "ABCDEFGHIJKLMNOPQRSTUVWXYZabcdefghijklmnopqrstuvwxyz0123456789+/";
    let mut value: u64 = 0;
    let mut weight: u64 = 1;
    for b in bytes {
        let digit = alphabet.bytes().position(|a| a == *b).unwrap() as u64;
        value += digit * weight;
        weight = weight.wrapping_mul(64);
    }
    value
}

#[test]
fn encode_single_symbols() {
    assert_eq!(encoded(0), b"A".to_vec());
    assert_eq!(encoded(1), b"B".to_vec());
    assert_eq!(encoded(25), b"Z".to_vec());
    assert_eq!(encoded(26), b"a".to_vec());
    assert_eq!(encoded(51), b"z".to_vec());
    assert_eq!(encoded(52), b"0".to_vec());
    assert_eq!(encoded(61), b"9".to_vec());
    assert_eq!(encoded(62), b"+".to_vec());
    assert_eq!(encoded(63), b"/".to_vec());
}

#[test]
fn encode_least_significant_first() {
    // 64 is digit 0 at weight 1 and digit 1 at weight 64: "AB", not "BA".
    assert_eq!(encoded(64), b"AB".to_vec());
    assert_eq!(encoded(4095), b"//".to_vec());
    assert_eq!(encoded(4096), b"AAB".to_vec());
}

#[test]
fn encode_round_trip() {
    for value in [0u64, 1, 63, 64, 65, 4095, 4096, 123456789, u64::MAX] {
        assert_eq!(decoded(&encoded(value)), value);
    }
}

#[test]
fn encode_appends_to_buffer() {
    let mut buf = vec![1u8, 2u8];
    assert!(push_nonce(&mut buf, 0, 64));
    assert_eq!(buf, vec![1u8, 2u8, 65u8]);
}

#[test]
fn encode_overflow_leaves_buffer() {
    let mut buf = vec![9u8];
    assert!(!push_nonce(&mut buf, 64, 1));
    assert_eq!(buf, vec![9u8]);
    assert!(!push_nonce(&mut buf, 0, 0));
    assert_eq!(buf, vec![9u8]);
}

#[test]
fn concat_without_message() {
    assert_eq!(hashmin::hash::concat("alice".to_string(), None), "alice");
}

#[test]
fn concat_with_message() {
    assert_eq!(
        hashmin::hash::concat("alice".to_string(), Some("hello".to_string())),
        "alice/hello"
    );
}

#[test]
fn validate_accepts_no_message() {
    let args = Args { username: "alice".to_string(), message: None, iterations: None };
    assert_eq!(args.validate(), Ok(()));
}

#[test]
fn validate_accepts_boundary_message() {
    let args = Args {
        username: "alice".to_string(),
        message: Some("x".repeat(64)),
        iterations: None,
    };
    assert_eq!(args.validate(), Ok(()));
}

#[test]
fn validate_rejects_long_message() {
    let args = Args {
        username: "alice".to_string(),
        message: Some("x".repeat(65)),
        iterations: Some(10),
    };
    assert_eq!(args.validate(), Err(ValidationError::MessageTooLong));
}

#[test]
fn max_is_all_ones_and_empty_nonce() {
    let (digest, nonce) = hashmin::hash::max();
    assert_eq!(digest, vec![255u8; 32]);
    assert_eq!(nonce, "");
}

#[test]
fn is_less_is_big_endian_and_strict() {
    let a = vec![0u8; 32];
    let mut b = vec![0u8; 32];
    b[31] = 1;
    assert!(is_less(&a, &b));
    assert!(!is_less(&b, &a));
    assert!(!is_less(&a, &a.clone()));
    let mut c = vec![0u8; 32];
    c[0] = 1;
    assert!(is_less(&b, &c));
}

#[test]
fn single_worker_scenario() {
    // Worker 0 of 1 with cap 3 tries nonces 0, 1, 2: "A", "B", "C".
    let expected = ["alice/A", "alice/B", "alice/C"]
        .iter()
        .map(|p| oracle(p))
        .collect::<Vec<_>>();
    let mut best = 0;
    for k in 1..3 {
        if is_less(&expected[k], &expected[best]) {
            best = k;
        }
    }
    let (digest, nonce) = worker(0, 1, "alice".to_string(), None, Some(3), None);
    assert_eq!(digest, expected[best]);
    assert_eq!(nonce, ["A", "B", "C"][best]);
}

#[test]
fn worker_reports_improvements_then_exhaustion() {
    let (tx, rx) = crossbeam::channel::unbounded::<Report>();
    let returned = worker(0, 1, "alice".to_string(), None, Some(16), Some(tx));
    let reports: Vec<Report> = rx.iter().collect();

    // The expected improvement sequence, replayed from the oracle.
    let mut minimum = vec![255u8; 32];
    let mut expected = Vec::new();
    for v in 0u64..16 {
        let nonce: String = String::from_utf8(encoded(v)).unwrap();
        let digest = oracle(&format!("alice/{}", nonce));
        if is_less(&digest, &minimum) {
            minimum = digest.clone();
            expected.push((digest, nonce));
        }
    }

    assert_eq!(reports.last(), Some(&(0, None)));
    let improvements: Vec<_> = reports[..reports.len() - 1].to_vec();
    assert_eq!(improvements.len(), expected.len());
    for (report, want) in improvements.iter().zip(expected.iter()) {
        assert_eq!(report.0, 0);
        let got = report.1.as_ref().unwrap();
        assert_eq!(got.0, want.0);
        assert_eq!(got.1, want.1);
    }
    // A worker's emitted digests are strictly decreasing.
    for pair in improvements.windows(2) {
        let first = pair[0].1.as_ref().unwrap();
        let second = pair[1].1.as_ref().unwrap();
        assert!(is_less(&second.0, &first.0));
    }
    assert_eq!(returned.0, minimum);
}

#[test]
fn worker_is_deterministic() {
    let first = worker(0, 1, "alice".to_string(), Some("hi".to_string()), Some(50), None);
    let second = worker(0, 1, "alice".to_string(), Some("hi".to_string()), Some(50), None);
    assert_eq!(first, second);
}

#[test]
fn worker_partition_strides_by_count() {
    // Worker 1 of 2 with cap 3 tries nonces 1, 3, 5: "B", "D", "F".
    let expected = ["alice/B", "alice/D", "alice/F"]
        .iter()
        .map(|p| oracle(p))
        .collect::<Vec<_>>();
    let mut best = 0;
    for k in 1..3 {
        if is_less(&expected[k], &expected[best]) {
            best = k;
        }
    }
    let (digest, nonce) = worker(1, 2, "alice".to_string(), None, Some(3), None);
    assert_eq!(digest, expected[best]);
    assert_eq!(nonce, ["B", "D", "F"][best]);
}

#[test]
fn worker_includes_message_in_preimage() {
    let (digest, nonce) = worker(0, 1, "u".to_string(), Some("m".to_string()), Some(1), None);
    assert_eq!(digest, oracle("u/m/A"));
    assert_eq!(nonce, "A");
}

#[test]
fn zero_capacity_exhausts_before_hashing() {
    // A 64-byte message leaves no room for even one nonce symbol: the
    // worker stops on its first iteration without a cap and without ever
    // improving on the initial maximal candidate.
    let (tx, rx) = crossbeam::channel::unbounded::<Report>();
    let message = "y".repeat(64);
    let (digest, nonce) = worker(0, 1, "bob".to_string(), Some(message), None, Some(tx));
    assert_eq!(digest, vec![255u8; 32]);
    assert_eq!(nonce, "");
    let reports: Vec<Report> = rx.iter().collect();
    assert_eq!(reports, vec![(0, None)]);
}
