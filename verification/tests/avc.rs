use ssimulacra2_cuda::avc::{parse_avc_config_record, read_avc_config_record};

fn record(sps: &[&[u8]], pps: &[&[u8]], trailing: &[u8]) -> Vec<u8> {
    let mut r = vec![1, 0x64, 0x00, 0x28, 0xff, 0xe0 | sps.len() as u8];
    for s in sps {
        r.push((s.len() >> 8) as u8);
        r.push((s.len() & 0xff) as u8);
        r.extend_from_slice(s);
    }
    r.push(pps.len() as u8);
    for p in pps {
        r.push((p.len() >> 8) as u8);
        r.push((p.len() & 0xff) as u8);
        r.extend_from_slice(p);
    }
    r.extend_from_slice(trailing);
    r
}

#[test]
fn one_sps_one_pps() {
    let rec = record(&[&[0x67, 0x64, 0x00, 0x28]], &[&[0x68, 0xee, 0x3c, 0x80]], &[]);
    assert_eq!(
        read_avc_config_record(&rec),
        vec![0, 0, 0, 1, 0x67, 0x64, 0x00, 0x28, 0, 0, 0, 1, 0x68, 0xee, 0x3c, 0x80]
    );
}

#[test]
fn several_sets_in_order() {
    let rec = record(&[&[0x67, 1], &[0x67, 2, 3]], &[&[0x68], &[0x68, 9], &[]], &[]);
    assert_eq!(
        read_avc_config_record(&rec),
        vec![
            0, 0, 0, 1, 0x67, 1, 0, 0, 0, 1, 0x67, 2, 3, 0, 0, 0, 1, 0x68, 0, 0, 0, 1, 0x68, 9,
            0, 0, 0, 1
        ]
    );
}

#[test]
fn trailing_bytes_are_ignored() {
    let rec = record(&[&[0x67, 7]], &[&[0x68, 8]], &[0xfd, 0xf8, 0xf8, 0x00]);
    assert_eq!(
        parse_avc_config_record(&rec),
        Some(vec![0, 0, 0, 1, 0x67, 7, 0, 0, 0, 1, 0x68, 8])
    );
}

#[test]
fn empty_lists() {
    let rec = record(&[], &[], &[]);
    assert_eq!(read_avc_config_record(&rec), Vec::<u8>::new());
}

#[test]
fn reserved_bits_of_count_are_ignored() {
    // 0xe1: three reserved bits set, one SPS.
    let rec = vec![1, 0x42, 0xc0, 0x1e, 0xff, 0xe1, 0x00, 0x01, 0x67, 0x00];
    assert_eq!(parse_avc_config_record(&rec), Some(vec![0, 0, 0, 1, 0x67]));
}

#[test]
fn long_set_uses_big_endian_length() {
    let big: Vec<u8> = (0..300u32).map(|i| (i % 251) as u8).collect();
    let rec = record(&[&big], &[], &[]);
    let out = read_avc_config_record(&rec);
    assert_eq!(out.len(), 304);
    assert_eq!(&out[..4], &[0, 0, 0, 1]);
    assert_eq!(&out[4..], &big[..]);
}

#[test]
fn too_short_header() {
    assert_eq!(parse_avc_config_record(&[1, 0x64, 0, 0x28, 0xff]), None);
    assert_eq!(parse_avc_config_record(&[]), None);
}

#[test]
fn truncated_sps() {
    let mut rec = record(&[&[0x67, 1, 2, 3]], &[], &[]);
    rec.truncate(9);
    assert_eq!(parse_avc_config_record(&rec), None);
}

#[test]
fn missing_sps_length() {
    assert_eq!(parse_avc_config_record(&[1, 0x64, 0, 0x28, 0xff, 0xe1, 0x00]), None);
}

#[test]
fn missing_pps_count() {
    let mut rec = record(&[&[0x67]], &[], &[]);
    rec.pop();
    assert_eq!(parse_avc_config_record(&rec), None);
}

#[test]
fn truncated_pps() {
    let mut rec = record(&[&[0x67]], &[&[0x68, 1, 2]], &[]);
    rec.pop();
    assert_eq!(parse_avc_config_record(&rec), None);
}

#[test]
fn roundtrip_of_built_records() {
    let sps: Vec<Vec<u8>> = vec![vec![0x67, 0x4d, 0x40, 0x1f], vec![0x67]];
    let pps: Vec<Vec<u8>> = vec![vec![0x68, 0xeb], vec![0x68, 0xce, 0x06, 0xe2]];
    let sps_refs: Vec<&[u8]> = sps.iter().map(|v| v.as_slice()).collect();
    let pps_refs: Vec<&[u8]> = pps.iter().map(|v| v.as_slice()).collect();
    let rec = record(&sps_refs, &pps_refs, &[0xaa, 0xbb]);
    let mut expected = Vec::new();
    for unit in sps.iter().chain(pps.iter()) {
        expected.extend_from_slice(&[0, 0, 0, 1]);
        expected.extend_from_slice(unit);
    }
    assert_eq!(parse_avc_config_record(&rec), Some(expected));
}
