use hbbs::addr::{is_loopback, try_into_v4, IpAddress, SockAddr};
use hbbs::frame::{decode_frame, encode_frame};
use hbbs::identity::{get_server_sk, id_pk_encode, sign_id_pk, ServerKey};
use hbbs::lan::{contains, is_lan, parse_mask, LanMask};
use hbbs::text::{parse_u64, split, tokens, trim};

#[test]
fn frame_has_big_endian_length() {
    let f = encode_frame(&vec![7u8; 300]);
    assert_eq!(f.len(), 302);
    assert_eq!(f[0], 1);
    assert_eq!(f[1], 44);
    assert_eq!(f[2], 7);
}

#[test]
fn frame_round_trip_with_trailing_bytes() {
    let mut f = encode_frame(&vec![1u8, 2, 3]);
    f.extend_from_slice(&[9, 9]);
    let (p, used) = decode_frame(&f).unwrap();
    assert_eq!(p, vec![1u8, 2, 3]);
    assert_eq!(used, 5);
}

#[test]
fn frame_incomplete_is_none() {
    assert!(decode_frame(&[0u8]).is_none());
    assert!(decode_frame(&[0u8, 3, 1, 2]).is_none());
    assert_eq!(decode_frame(&[0u8, 0]).unwrap(), (vec![], 2));
}

#[test]
fn mapped_v6_becomes_v4() {
    let a = SockAddr { ip: IpAddress::V6(0xffff_0102_0304), port: 80 };
    assert_eq!(try_into_v4(a), SockAddr { ip: IpAddress::V4(0x0102_0304), port: 80 });
    let b = SockAddr { ip: IpAddress::V6(1), port: 80 };
    assert_eq!(try_into_v4(b), b);
    assert!(is_loopback(IpAddress::V4(0x7f00_0001)));
    assert!(is_loopback(IpAddress::V6(1)));
    assert!(!is_loopback(IpAddress::V4(0x0102_0304)));
}

#[test]
fn private_key_setting_yields_public_half() {
    let k = "AQIDBAUGBwgJCgsMDQ4PEBESExQVFhcYGRobHB0eHyAhIiMkJSYnKCkqKywtLi8wMTIzNDU2Nzg5Ojs8PT4/QA==";
    match get_server_sk(k) {
        ServerKey::Private { public, secret } => {
            assert_eq!(public, "ISIjJCUmJygpKissLS4vMDEyMzQ1Njc4OTo7PD0+P0A=");
            assert_eq!(secret, (1u8..=64).collect::<Vec<u8>>());
        }
        _ => panic!("expected a private key"),
    }
}

#[test]
fn key_settings_for_generation_and_public() {
    assert!(matches!(get_server_sk(""), ServerKey::Generate { publish: false }));
    assert!(matches!(get_server_sk("-"), ServerKey::Generate { publish: true }));
    assert!(matches!(get_server_sk("_"), ServerKey::Generate { publish: true }));
    match get_server_sk("OeVuKk5nlHiXp+APNn0Y3pC1Iwpwn44JGqrQCsWqmBw=") {
        ServerKey::Public(k) => assert_eq!(k, "OeVuKk5nlHiXp+APNn0Y3pC1Iwpwn44JGqrQCsWqmBw="),
        _ => panic!("expected a public key"),
    }
}

#[test]
fn id_pk_wire_form() {
    assert_eq!(id_pk_encode("AB", &[1, 2]), vec![0x0a, 2, b'A', b'B', 0x12, 2, 1, 2]);
    assert_eq!(id_pk_encode("", &[5]), vec![0x12, 1, 5]);
    let long = vec![3u8; 200];
    let e = id_pk_encode("", &long);
    assert_eq!(&e[..3], &[0x12, 0xc8, 0x01]);
    assert_eq!(e.len(), 203);
}

#[test]
fn signed_bundle_verifies() {
    let (pk, sk) = sodiumoxide::crypto::sign::gen_keypair();
    let signed = sign_id_pk("BBBBBB", &[4, 5, 6], &sk.0);
    let m = sodiumoxide::crypto::sign::verify(&signed, &pk).unwrap();
    assert_eq!(m, id_pk_encode("BBBBBB", &[4, 5, 6]));
    assert_eq!(signed.len(), 64 + m.len());
}

#[test]
fn lan_mask_classifies() {
    let m = parse_mask("192.168.0.0/16").unwrap();
    assert_eq!(m, LanMask { addr: 0xc0a8_0000, prefix: 16 });
    assert!(contains(m, 0xc0a8_0105));
    assert!(!contains(m, 0xc0a9_0105));
    assert!(parse_mask("not a net").is_none());
    assert!(parse_mask("10.0.0.0/33").is_none());
    let lan = SockAddr { ip: IpAddress::V6(0xffff_c0a8_0105), port: 1 };
    assert!(is_lan(Some(m), lan));
    assert!(!is_lan(None, lan));
}

#[test]
fn text_helpers() {
    assert_eq!(split("a,,b", ','), vec!["a".to_string(), "".to_string(), "b".to_string()]);
    assert_eq!(parse_u64("+12"), Some(12));
    assert_eq!(parse_u64("18446744073709551615"), Some(u64::MAX));
    assert_eq!(parse_u64("18446744073709551616"), None);
    assert_eq!(parse_u64(""), None);
    assert_eq!(parse_u64("1x"), None);
    assert_eq!(trim("  ib 1.2.3.4\n"), "ib 1.2.3.4");
    assert_eq!(tokens("u\n"), vec!["u".to_string()]);
}
