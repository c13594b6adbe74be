use apdec::batch::{count_failures, decode_job};
use apdec::cipher::KeyTable;
use apdec::decoder::DecodeError;

fn adler32_digest(data: &[u8]) -> u32 {
    let mut hash = adler32::RollingAdler32::new();
    for &b in data {
        hash.update(b);
    }
    hash.hash()
}

fn make_container(plain: &[u8], key: &[u8]) -> Vec<u8> {
    let checksum = adler32_digest(plain);
    let mut stream = checksum.to_le_bytes().to_vec();
    let mut cursor = checksum as usize % key.len();
    for &p in plain {
        stream.push(p.reverse_bits() ^ key[cursor]);
        cursor = (cursor + 1) % key.len();
    }
    stream
}

#[test]
fn batch_of_three_reports_two_failures() {
    let key_bytes = [0x01, 0x02, 0x03, 0x04];
    let key = KeyTable::new(key_bytes.to_vec()).unwrap();

    let good_plain = b"payload".to_vec();
    let good = make_container(&good_plain, &key_bytes);
    let mut corrupt = make_container(b"other payload", &key_bytes);
    corrupt[0] ^= 0xFF;

    let jobs: Vec<(&str, &[u8])> = vec![
        ("first.txt", good.as_slice()),
        ("second.aud", good.as_slice()),
        ("third.pnz", corrupt.as_slice()),
    ];

    let mut outputs = Vec::new();
    let mut failed = Vec::new();
    for (name, data) in jobs {
        match decode_job(name, data, &key) {
            Ok(out) => {
                outputs.push(out);
                failed.push(false);
            }
            Err(_) => failed.push(true),
        }
    }

    assert_eq!(outputs, vec![("second.mp3".to_string(), good_plain)]);
    let failures = count_failures(&failed);
    assert_eq!(failures, 2);
    // At least one job failed, so the batch outcome is non-zero.
    assert!(failures > 0);
}

#[test]
fn job_with_unrecognized_extension_fails_before_decoding() {
    let key = KeyTable::new(vec![0x01, 0x02, 0x03, 0x04]).unwrap();
    assert_eq!(
        decode_job("input.wav", &[1, 0, 0, 0], &key),
        Err(DecodeError::UnrecognizedExtension)
    );
}

#[test]
fn job_with_truncated_header_fails() {
    let key = KeyTable::new(vec![0x01, 0x02, 0x03, 0x04]).unwrap();
    assert_eq!(
        decode_job("input.aud", &[1, 0], &key),
        Err(DecodeError::TruncatedHeader)
    );
}

#[test]
fn job_success_names_the_output() {
    let key_bytes = [0x11, 0x22, 0x33];
    let key = KeyTable::new(key_bytes.to_vec()).unwrap();
    let stream = make_container(b"img", &key_bytes);
    assert_eq!(
        decode_job("sprite.PNZ", &stream, &key),
        Ok(("sprite.png".to_string(), b"img".to_vec()))
    );
}

#[test]
fn count_failures_counts_set_flags() {
    assert_eq!(count_failures(&Vec::new()), 0);
    assert_eq!(count_failures(&vec![false, false, false]), 0);
    assert_eq!(count_failures(&vec![true, false, true, true]), 3);
}
