//! End-to-end tests of the DER codec: fixture keys generated by OpenSSL,
//! integer canonicalization cases, and the error paths.

use asn1::{
    AlgorithmIdentifier, Any, EcPrivateKey, Encoder, Error, Integer, Null, ObjectId, OctetString,
    Parser, PrivateKeyInfo, RSAPrivateKey, RSAPublicKey, Tag, Type, Version,
};
use asn1::{id_ec_public_key, id_md5, id_prime256v1};

fn rsa_public_key_1k() -> Vec<u8> {
    vec![
        0x30, 0x81, 0x89, 0x02, 0x81, 0x81, 0x00, 0xc7, 0xb5, 0xc7, 0xa3, 0xe4,
        0x19, 0x91, 0xc4, 0x55, 0xf9, 0xd7, 0x2b, 0x9d, 0xe5, 0xf1, 0x98, 0x35,
        0xfd, 0x62, 0x8f, 0x45, 0x28, 0x28, 0xb4, 0x99, 0x04, 0x3c, 0x22, 0x72,
        0xb1, 0x1e, 0xd0, 0xa4, 0xca, 0x99, 0x98, 0xaa, 0x06, 0xa6, 0x50, 0x05,
        0xb5, 0x6f, 0x27, 0x90, 0xc6, 0xfd, 0xa3, 0x11, 0x52, 0xc5, 0x57, 0x9d,
        0x11, 0x86, 0xff, 0xb4, 0x0c, 0x86, 0x89, 0x33, 0x69, 0x3a, 0xc5, 0xfd,
        0x8d, 0xef, 0x7f, 0xdf, 0xee, 0xbb, 0xe7, 0xcc, 0xd3, 0x72, 0xe7, 0x99,
        0xe7, 0x90, 0x92, 0xa2, 0x44, 0xf8, 0x1b, 0x49, 0x87, 0x5d, 0x48, 0xd1,
        0x57, 0xa8, 0x7d, 0x91, 0xb0, 0x19, 0x5b, 0x9e, 0xe5, 0xf0, 0x00, 0x56,
        0xc7, 0xe5, 0x15, 0xb8, 0x5b, 0x7c, 0x30, 0xe7, 0x55, 0x1b, 0xb1, 0x01,
        0xb3, 0x8b, 0x02, 0x0f, 0x06, 0xde, 0x21, 0x33, 0x79, 0x04, 0x37, 0xc3,
        0xf7, 0x41, 0x17, 0x02, 0x03, 0x01, 0x00, 0x01,
    ]
}

fn rsa_private_key_1k() -> Vec<u8> {
    vec![
        0x30, 0x82, 0x02, 0x5b, 0x02, 0x01, 0x00, 0x02, 0x81, 0x81, 0x00, 0xc7,
        0xb5, 0xc7, 0xa3, 0xe4, 0x19, 0x91, 0xc4, 0x55, 0xf9, 0xd7, 0x2b, 0x9d,
        0xe5, 0xf1, 0x98, 0x35, 0xfd, 0x62, 0x8f, 0x45, 0x28, 0x28, 0xb4, 0x99,
        0x04, 0x3c, 0x22, 0x72, 0xb1, 0x1e, 0xd0, 0xa4, 0xca, 0x99, 0x98, 0xaa,
        0x06, 0xa6, 0x50, 0x05, 0xb5, 0x6f, 0x27, 0x90, 0xc6, 0xfd, 0xa3, 0x11,
        0x52, 0xc5, 0x57, 0x9d, 0x11, 0x86, 0xff, 0xb4, 0x0c, 0x86, 0x89, 0x33,
        0x69, 0x3a, 0xc5, 0xfd, 0x8d, 0xef, 0x7f, 0xdf, 0xee, 0xbb, 0xe7, 0xcc,
        0xd3, 0x72, 0xe7, 0x99, 0xe7, 0x90, 0x92, 0xa2, 0x44, 0xf8, 0x1b, 0x49,
        0x87, 0x5d, 0x48, 0xd1, 0x57, 0xa8, 0x7d, 0x91, 0xb0, 0x19, 0x5b, 0x9e,
        0xe5, 0xf0, 0x00, 0x56, 0xc7, 0xe5, 0x15, 0xb8, 0x5b, 0x7c, 0x30, 0xe7,
        0x55, 0x1b, 0xb1, 0x01, 0xb3, 0x8b, 0x02, 0x0f, 0x06, 0xde, 0x21, 0x33,
        0x79, 0x04, 0x37, 0xc3, 0xf7, 0x41, 0x17, 0x02, 0x03, 0x01, 0x00, 0x01,
        0x02, 0x81, 0x80, 0x70, 0x32, 0xb5, 0x25, 0x63, 0x59, 0xe6, 0x25, 0xea,
        0xb3, 0x81, 0x6a, 0x34, 0xbc, 0x61, 0xbd, 0xc4, 0xdf, 0x45, 0x06, 0xfe,
        0xb0, 0x70, 0x25, 0xfe, 0x2d, 0x7d, 0xe7, 0x50, 0x8e, 0x27, 0xa4, 0xca,
        0x60, 0x34, 0x68, 0xab, 0x65, 0x2e, 0xfc, 0x98, 0x28, 0x75, 0x79, 0x42,
        0x02, 0x39, 0xae, 0xea, 0x65, 0x99, 0x0e, 0xfe, 0xe4, 0x40, 0xf6, 0xd9,
        0x5d, 0x8c, 0x1b, 0xfa, 0xb1, 0x2c, 0xdd, 0xde, 0xad, 0x7e, 0x65, 0x8f,
        0xf1, 0x0f, 0x95, 0xbe, 0xd5, 0x40, 0x12, 0x26, 0x50, 0x15, 0x65, 0x32,
        0x98, 0x59, 0x8a, 0xd9, 0x8f, 0x9d, 0x37, 0xda, 0x72, 0xca, 0x26, 0x32,
        0x4a, 0xe5, 0x5d, 0xd5, 0x8a, 0x7c, 0x27, 0x19, 0x67, 0x64, 0x15, 0x4f,
        0x31, 0x48, 0x2d, 0x4f, 0xf7, 0x99, 0x5d, 0x73, 0x66, 0x57, 0x68, 0xe5,
        0xf6, 0xac, 0x90, 0x2e, 0xd2, 0x47, 0x90, 0xd0, 0x9d, 0x6d, 0x09, 0x02,
        0x41, 0x00, 0xeb, 0x93, 0x0b, 0x93, 0xbc, 0x45, 0x1f, 0xdd, 0x2f, 0xb3,
        0x34, 0xe1, 0x34, 0x37, 0xa5, 0x06, 0xd5, 0x93, 0xe3, 0xe2, 0x85, 0x05,
        0x67, 0xe7, 0x73, 0x14, 0x97, 0x21, 0xa3, 0x2c, 0x1b, 0xff, 0xf0, 0x13,
        0x41, 0xa2, 0x46, 0xa7, 0x25, 0x0b, 0xab, 0x6c, 0xd4, 0x5d, 0x71, 0xa6,
        0xdd, 0xc8, 0x0d, 0xef, 0x81, 0xab, 0x91, 0xb5, 0x99, 0x34, 0x9c, 0xb8,
        0x20, 0x2b, 0x26, 0x4b, 0x33, 0x4d, 0x02, 0x41, 0x00, 0xd9, 0x06, 0xab,
        0x06, 0xb4, 0x40, 0x5a, 0x36, 0x62, 0xf3, 0x67, 0x4b, 0x78, 0xd0, 0x26,
        0x22, 0xf1, 0x46, 0x34, 0x5b, 0x58, 0x04, 0x90, 0x5d, 0x6a, 0x10, 0x47,
        0x89, 0x54, 0xce, 0x75, 0x3c, 0x4a, 0x82, 0xc4, 0x29, 0x2b, 0x0d, 0xa0,
        0x4e, 0xe3, 0xbb, 0x65, 0x5f, 0x6a, 0x0c, 0x8a, 0xc9, 0xc6, 0xe2, 0xd3,
        0x4c, 0x49, 0x77, 0x28, 0xb7, 0x95, 0x81, 0x74, 0xdf, 0x09, 0xc6, 0x4b,
        0xf3, 0x02, 0x40, 0x09, 0x37, 0x63, 0x88, 0x90, 0x21, 0x14, 0x32, 0x0f,
        0x1f, 0xaf, 0xbd, 0xef, 0xd1, 0x0d, 0x7f, 0xca, 0xf3, 0x52, 0x43, 0x16,
        0x79, 0x33, 0xab, 0x76, 0x71, 0x23, 0xc8, 0x89, 0x1d, 0xbc, 0xaa, 0xb2,
        0xb5, 0xce, 0x27, 0x8f, 0x24, 0x12, 0xea, 0xf5, 0xf5, 0xf8, 0x08, 0xff,
        0xdd, 0x4b, 0x67, 0xfc, 0x43, 0x96, 0x8b, 0x23, 0xd4, 0x3a, 0xfe, 0x37,
        0xf3, 0x6c, 0x2e, 0xc3, 0xfc, 0xc5, 0x31, 0x02, 0x40, 0x7f, 0x2b, 0xf4,
        0x1d, 0xfa, 0x93, 0xd7, 0x09, 0x15, 0x94, 0xb1, 0xcb, 0xbc, 0xe0, 0xa3,
        0xe8, 0x47, 0xdf, 0xae, 0xa0, 0x74, 0x04, 0x40, 0xa0, 0x2c, 0x9d, 0x9b,
        0x7d, 0xb2, 0xcf, 0x44, 0x4d, 0x6f, 0x10, 0x0f, 0x68, 0x5c, 0x4d, 0x20,
        0xc9, 0xf9, 0x92, 0x7f, 0x05, 0x99, 0x3b, 0xfe, 0x3b, 0xdc, 0xaa, 0x5f,
        0xcc, 0xcd, 0x23, 0xe1, 0x1d, 0x2a, 0xa3, 0x70, 0x5b, 0x9d, 0xfb, 0xaf,
        0xd7, 0x02, 0x40, 0x5b, 0x92, 0x29, 0x82, 0x2a, 0x84, 0x4a, 0x76, 0x00,
        0xe4, 0x85, 0x39, 0x8f, 0x36, 0xd5, 0x45, 0x07, 0xe8, 0x79, 0x3f, 0x42,
        0x06, 0xef, 0xfa, 0xcb, 0x73, 0xca, 0x11, 0x8a, 0xe1, 0x8b, 0x5a, 0xc0,
        0x5f, 0x1c, 0x51, 0x02, 0xe9, 0x4f, 0x60, 0x01, 0x51, 0x9a, 0x91, 0xa5,
        0x0b, 0x6f, 0x95, 0x03, 0x31, 0x1b, 0x9a, 0xf2, 0xc6, 0x21, 0xc2, 0xcd,
        0x93, 0x92, 0x82, 0x17, 0xcc, 0x6b, 0x0b,
    ]
}

fn nistp256_sec1() -> Vec<u8> {
    vec![
        0x30, 0x77, 0x02, 0x01, 0x01, 0x04, 0x20, 0x1c, 0xe0, 0xcc, 0xab, 0x14,
        0x8f, 0x83, 0x1d, 0xe3, 0x09, 0x1b, 0x38, 0xdf, 0x0a, 0x9f, 0xf5, 0x4e,
        0x1f, 0x02, 0xec, 0xa6, 0x53, 0x9f, 0xe0, 0x75, 0xce, 0x74, 0x4e, 0x30,
        0xd1, 0xd2, 0x48, 0xa0, 0x0a, 0x06, 0x08, 0x2a, 0x86, 0x48, 0xce, 0x3d,
        0x03, 0x01, 0x07, 0xa1, 0x44, 0x03, 0x42, 0x00, 0x04, 0xad, 0xe2, 0xbc,
        0x8a, 0xee, 0x48, 0xa3, 0xc2, 0x73, 0x0a, 0x7d, 0x02, 0xe5, 0xd5, 0x4c,
        0x7f, 0x52, 0xb3, 0x35, 0x2d, 0x50, 0x10, 0x28, 0x04, 0xdd, 0xf3, 0x41,
        0xf7, 0xaf, 0xaa, 0xe0, 0x65, 0x0f, 0x62, 0x15, 0x8d, 0xb5, 0x13, 0x7b,
        0x76, 0xee, 0x60, 0x22, 0xcb, 0x03, 0xdb, 0xec, 0x90, 0x51, 0x35, 0x35,
        0xdd, 0x73, 0x2c, 0xf4, 0x42, 0xd2, 0xc8, 0x3d, 0x45, 0xeb, 0x73, 0x5e,
        0x3f,
    ]
}

fn nistp256_p8() -> Vec<u8> {
    vec![
        0x30, 0x81, 0x87, 0x02, 0x01, 0x00, 0x30, 0x13, 0x06, 0x07, 0x2a, 0x86,
        0x48, 0xce, 0x3d, 0x02, 0x01, 0x06, 0x08, 0x2a, 0x86, 0x48, 0xce, 0x3d,
        0x03, 0x01, 0x07, 0x04, 0x6d, 0x30, 0x6b, 0x02, 0x01, 0x01, 0x04, 0x20,
        0x1c, 0xe0, 0xcc, 0xab, 0x14, 0x8f, 0x83, 0x1d, 0xe3, 0x09, 0x1b, 0x38,
        0xdf, 0x0a, 0x9f, 0xf5, 0x4e, 0x1f, 0x02, 0xec, 0xa6, 0x53, 0x9f, 0xe0,
        0x75, 0xce, 0x74, 0x4e, 0x30, 0xd1, 0xd2, 0x48, 0xa1, 0x44, 0x03, 0x42,
        0x00, 0x04, 0xad, 0xe2, 0xbc, 0x8a, 0xee, 0x48, 0xa3, 0xc2, 0x73, 0x0a,
        0x7d, 0x02, 0xe5, 0xd5, 0x4c, 0x7f, 0x52, 0xb3, 0x35, 0x2d, 0x50, 0x10,
        0x28, 0x04, 0xdd, 0xf3, 0x41, 0xf7, 0xaf, 0xaa, 0xe0, 0x65, 0x0f, 0x62,
        0x15, 0x8d, 0xb5, 0x13, 0x7b, 0x76, 0xee, 0x60, 0x22, 0xcb, 0x03, 0xdb,
        0xec, 0x90, 0x51, 0x35, 0x35, 0xdd, 0x73, 0x2c, 0xf4, 0x42, 0xd2, 0xc8,
        0x3d, 0x45, 0xeb, 0x73, 0x5e, 0x3f,
    ]
}

fn check_integer_from_bytes(bytes: &[u8], encoding: &[u8]) {
    let mut buf = vec![0u8; encoding.len()];
    let mut enc = Encoder::new(&buf);
    let len = Integer::from_bytes(bytes).encode(&mut buf, &mut enc).unwrap();
    buf.truncate(len);
    assert_eq!(buf.as_slice(), encoding);
}

fn check_integer_from_isize(num: isize, encoding: &[u8]) {
    let be = num.to_be_bytes();
    let mut buf = vec![0u8; encoding.len()];
    let mut enc = Encoder::new(&buf);
    let len = Integer::from_bytes(&be).encode(&mut buf, &mut enc).unwrap();
    buf.truncate(len);
    assert_eq!(buf.as_slice(), encoding);
}

#[test]
fn it_works() {
    println!("{:x?}", id_md5().as_ref());
}

#[test]
fn test_integer_encoding() {
    check_integer_from_bytes(&[0u8; 16], &[0x02, 0x01, 0x00]);
    check_integer_from_bytes(&[], &[0x02, 0x01, 0x00]);
    check_integer_from_isize(0, &[0x02, 0x01, 0x00]);

    // negative sign contraction
    check_integer_from_bytes(&[0xffu8; 32], &[0x02, 0x01, 0xff]);
    check_integer_from_bytes(&[0xff, 0xff, 0x01], &[0x02, 0x02, 0xff, 0x01]);
    check_integer_from_isize(-1, &[0x02, 0x01, 0xff]);
    check_integer_from_isize(-127, &[0x02, 0x01, 0x81]);

    // positive zero contraction
    check_integer_from_bytes(&[0x00, 0x00, 0x80], &[0x02, 0x02, 0x00, 0x80]);
    check_integer_from_bytes(&[0x00, 0x00, 0x7f], &[0x02, 0x01, 0x7f]);
    check_integer_from_isize(128, &[0x02, 0x02, 0x00, 0x80]);
    check_integer_from_isize(127, &[0x02, 0x01, 0x7f]);
}

#[test]
fn parse_public_key() {
    let data = rsa_public_key_1k();
    let key = RSAPublicKey::parse(&mut Parser::new(&data)).unwrap();

    assert_eq!(key.encoded_len(), data.len());

    let mut buf = vec![0u8; 256];
    let mut enc = Encoder::new(&buf);
    let encode_len = key.encode(&mut buf, &mut enc).unwrap();
    println!("{:?}", &buf[..encode_len]);
    assert_eq!(data.as_slice(), &buf[..encode_len]);
}

#[test]
fn parse_private_key() {
    let data = rsa_private_key_1k();
    let key = RSAPrivateKey::parse(&mut Parser::new(&data)).unwrap();

    assert_eq!(key.encoded_len(), data.len());
}

#[test]
fn parse_pkcs8_key() {
    let data = nistp256_p8();
    let key = PrivateKeyInfo::parse(&mut Parser::new(&data)).unwrap();
    assert_eq!(key.version, Integer::from_bytes(&[0]));
    assert_eq!(key.privateKeyAlgorithm.algorithm, id_ec_public_key());
    assert_eq!(
        key.privateKeyAlgorithm.parameters,
        Some(Any::ObjectId(id_prime256v1().clone()))
    );

    let inner = EcPrivateKey::parse(&mut Parser::new(key.privateKey.octets)).unwrap();
    assert_eq!(inner.version, asn1::EcPrivateKeyVer::ecPrivkeyVer1);
}

#[test]
fn parse_sec1_key() {
    let data = nistp256_sec1();
    let key = EcPrivateKey::parse(&mut Parser::new(&data)).unwrap();
    assert_eq!(key.version, asn1::EcPrivateKeyVer::ecPrivkeyVer1);
}

#[test]
fn private_key_round_trip() {
    let data = rsa_private_key_1k();
    let key = RSAPrivateKey::parse(&mut Parser::new(&data)).unwrap();
    assert_eq!(key.version, Version::two_prime);

    let mut buf = vec![0u8; 1024];
    let mut enc = Encoder::new(&buf);
    let n = key.encode(&mut buf, &mut enc).unwrap();
    assert_eq!(data.as_slice(), &buf[..n]);
}

#[test]
fn pkcs8_round_trip() {
    let data = nistp256_p8();
    let key = PrivateKeyInfo::parse(&mut Parser::new(&data)).unwrap();
    assert_eq!(key.encoded_len(), data.len());

    let mut buf = vec![0u8; 256];
    let mut enc = Encoder::new(&buf);
    let n = key.encode(&mut buf, &mut enc).unwrap();
    assert_eq!(data.as_slice(), &buf[..n]);
}

#[test]
fn sec1_round_trip_of_declared_fields() {
    // A SEC1 key fixture carries trailing context-tagged fields that the
    // schema does not declare; re-encoding the declared fields alone must
    // reproduce their canonical bytes.
    let data = nistp256_sec1();
    let key = EcPrivateKey::parse(&mut Parser::new(&data)).unwrap();
    let n = key.encoded_len();
    let mut buf = vec![0u8; n];
    let mut enc = Encoder::new(&buf);
    let written = key.encode(&mut buf, &mut enc).unwrap();
    assert_eq!(written, n);
    // version INTEGER 1, then the 32-byte private scalar as an OCTET STRING
    assert_eq!(&buf[..5], &[0x30, 0x25, 0x02, 0x01, 0x01]);
    assert_eq!(&buf[5..7], &[0x04, 0x20]);
}

#[test]
fn oid_md5_encoding() {
    // 1.2.840.113549.2.5 encodes to the documented byte sequence
    assert_eq!(
        id_md5().as_ref(),
        &[0x2a, 0x86, 0x48, 0x86, 0xf7, 0x0d, 0x02, 0x05]
    );
}

#[test]
fn oid_known_constants() {
    assert_eq!(
        id_ec_public_key().as_ref(),
        &[0x2a, 0x86, 0x48, 0xce, 0x3d, 0x02, 0x01]
    );
    assert_eq!(
        id_prime256v1().as_ref(),
        &[0x2a, 0x86, 0x48, 0xce, 0x3d, 0x03, 0x01, 0x07]
    );
}

#[test]
fn oid_encode_and_parse() {
    let oid = id_prime256v1();
    let mut buf = vec![0u8; 16];
    let mut enc = Encoder::new(&buf);
    let n = oid.encode(&mut buf, &mut enc).unwrap();
    assert_eq!(&buf[..n], &[0x06, 0x08, 0x2a, 0x86, 0x48, 0xce, 0x3d, 0x03, 0x01, 0x07]);

    let parsed = ObjectId::parse(&mut Parser::new(&buf[..n])).unwrap();
    assert_eq!(parsed, oid);
}

#[test]
fn oid_too_large_rejected() {
    // a declared OID body of 17 bytes exceeds the fixed 16-byte capacity
    let mut data = vec![0x06u8, 0x11];
    data.extend_from_slice(&[0x2a; 17]);
    assert_eq!(
        ObjectId::parse(&mut Parser::new(&data)),
        Err(Error::UnsupportedLargeObjectId)
    );
}

#[test]
fn non_canonical_two_byte_length_rejected() {
    // long-form 0x82 length whose value 0x00ff fits one length byte
    let mut data = vec![0x04u8, 0x82, 0x00, 0xff];
    data.extend_from_slice(&[0u8; 255]);
    assert_eq!(
        OctetString::parse(&mut Parser::new(&data)),
        Err(Error::NonCanonicalEncoding)
    );
}

#[test]
fn non_canonical_one_byte_length_rejected() {
    // long-form 0x81 length whose value 0x7f fits the short form
    let mut data = vec![0x04u8, 0x81, 0x7f];
    data.extend_from_slice(&[0u8; 127]);
    assert_eq!(
        OctetString::parse(&mut Parser::new(&data)),
        Err(Error::NonCanonicalEncoding)
    );
}

#[test]
fn canonical_two_byte_length_accepted() {
    // 0x0100 is the smallest length needing two bytes
    let mut data = vec![0x04u8, 0x82, 0x01, 0x00];
    data.extend_from_slice(&[7u8; 256]);
    let os = OctetString::parse(&mut Parser::new(&data)).unwrap();
    assert_eq!(os.octets.len(), 256);
    assert_eq!(os.encoded_len(), data.len());
}

#[test]
fn null_with_body_rejected() {
    let data = [0x05u8, 0x01, 0x00];
    assert_eq!(Null::parse(&mut Parser::new(&data)), Err(Error::IllegalNull));
}

#[test]
fn null_round_trip() {
    let data = [0x05u8, 0x00];
    let n = Null::parse(&mut Parser::new(&data)).unwrap();
    assert_eq!(n.encoded_len(), 2);
    let mut buf = vec![0u8; 2];
    let mut enc = Encoder::new(&buf);
    let written = n.encode(&mut buf, &mut enc).unwrap();
    assert_eq!(&buf[..written], &data);
}

#[test]
fn unexpected_tag_reported() {
    let data = [0x04u8, 0x01, 0x00];
    assert_eq!(
        Integer::parse(&mut Parser::new(&data)),
        Err(Error::UnexpectedTag)
    );
}

#[test]
fn truncated_input_reported() {
    let data = [0x02u8, 0x05, 0x01];
    assert_eq!(
        Integer::parse(&mut Parser::new(&data)),
        Err(Error::EndOfInput)
    );
    assert_eq!(Integer::parse(&mut Parser::new(&[])), Err(Error::EndOfInput));
}

#[test]
fn unsupported_length_form_reported() {
    let data = [0x02u8, 0x83, 0x01, 0x00, 0x00];
    assert_eq!(
        Integer::parse(&mut Parser::new(&data)),
        Err(Error::NotImplemented)
    );
}

#[test]
fn integer_as_usize() {
    let one_byte = [0x02u8, 0x01, 0x2a];
    let i = Integer::parse(&mut Parser::new(&one_byte)).unwrap();
    assert_eq!(i.as_usize(), Ok(42));

    let two_bytes = [0x02u8, 0x02, 0x01, 0x00];
    let i = Integer::parse(&mut Parser::new(&two_bytes)).unwrap();
    assert_eq!(i.as_usize(), Ok(256));

    let negative = [0x02u8, 0x01, 0xff];
    let i = Integer::parse(&mut Parser::new(&negative)).unwrap();
    assert!(i.is_negative());
    assert_eq!(i.as_usize(), Err(Error::IntegerOutOfRange));

    let too_wide = [0x02u8, 0x09, 0x01, 0, 0, 0, 0, 0, 0, 0, 0];
    let i = Integer::parse(&mut Parser::new(&too_wide)).unwrap();
    assert_eq!(i.as_usize(), Err(Error::IntegerOutOfRange));
}

#[test]
fn integer_canonical_fixed_point() {
    // the canonical form of any integer re-parses to the same canonical form
    let raw = [0x00u8, 0x00, 0x12, 0x34];
    let a = Integer::from_bytes(&raw);
    let mut buf = vec![0u8; 8];
    let mut enc = Encoder::new(&buf);
    let n = a.encode(&mut buf, &mut enc).unwrap();
    let b = Integer::parse(&mut Parser::new(&buf[..n])).unwrap();
    assert_eq!(a, b);
    assert_eq!(b, Integer::from_bytes(&[0x12, 0x34]));
}

#[test]
fn unhandled_enum_value_reported() {
    // EcPrivateKey version 0 is outside the recognized set
    let data = [0x30u8, 0x05, 0x02, 0x01, 0x00, 0x04, 0x00];
    let r = EcPrivateKey::parse(&mut Parser::new(&data));
    assert_eq!(r.err(), Some(Error::UnhandledEnumValue));
}

#[test]
fn version_encodes_minimal_integer() {
    let data = [0x30u8, 0x05, 0x02, 0x01, 0x01, 0x04, 0x00];
    let key = EcPrivateKey::parse(&mut Parser::new(&data)).unwrap();
    let mut buf = vec![0u8; 7];
    let mut enc = Encoder::new(&buf);
    let n = key.encode(&mut buf, &mut enc).unwrap();
    assert_eq!(&buf[..n], &data);
}

#[test]
fn optional_field_absent() {
    // SEQUENCE holding only the algorithm OID: parameters parse as absent
    let data = [0x30u8, 0x09, 0x06, 0x07, 0x2a, 0x86, 0x48, 0xce, 0x3d, 0x02, 0x01];
    let alg = AlgorithmIdentifier::parse(&mut Parser::new(&data)).unwrap();
    assert_eq!(alg.algorithm, id_ec_public_key());
    assert_eq!(alg.parameters, None);
    assert_eq!(alg.encoded_len(), data.len());

    let mut buf = vec![0u8; 16];
    let mut enc = Encoder::new(&buf);
    let n = alg.encode(&mut buf, &mut enc).unwrap();
    assert_eq!(&buf[..n], &data);
}

#[test]
fn optional_field_present() {
    // bytes remain after the OID: the parameter is the tag-sniffed variant
    let data = [
        0x30u8, 0x13, 0x06, 0x07, 0x2a, 0x86, 0x48, 0xce, 0x3d, 0x02, 0x01, 0x06, 0x08, 0x2a,
        0x86, 0x48, 0xce, 0x3d, 0x03, 0x01, 0x07,
    ];
    let alg = AlgorithmIdentifier::parse(&mut Parser::new(&data)).unwrap();
    assert_eq!(alg.parameters, Some(Any::ObjectId(id_prime256v1())));

    let mut buf = vec![0u8; 32];
    let mut enc = Encoder::new(&buf);
    let n = alg.encode(&mut buf, &mut enc).unwrap();
    assert_eq!(&buf[..n], &data);
}

#[test]
fn optional_null_parameter() {
    let data = [0x30u8, 0x0b, 0x06, 0x07, 0x2a, 0x86, 0x48, 0xce, 0x3d, 0x02, 0x01, 0x05, 0x00];
    let alg = AlgorithmIdentifier::parse(&mut Parser::new(&data)).unwrap();
    assert_eq!(alg.parameters, Some(Any::Null(Null)));
}

#[test]
fn parser_cursor_operations() {
    let data = [0x02u8, 0x01, 0x2a, 0xee];
    let mut p = Parser::new(&data);
    assert_eq!(p.left(), 4);
    assert_eq!(p.peek_tag().unwrap().byte(), 0x02);
    let (tag, body) = p.take(Tag::integer()).unwrap();
    assert_eq!(tag.byte(), 0x02);
    assert_eq!(body, &[0x2a]);
    assert_eq!(p.left(), 1);
    assert_eq!(p.one_byte(), Ok(0xee));
    assert_eq!(p.one_byte(), Err(Error::EndOfInput));
}

#[test]
fn descend_bounds_child_parser() {
    // the child parser is scoped to the SEQUENCE body and cannot read past it
    let data = [0x30u8, 0x03, 0x02, 0x01, 0x07, 0x02, 0x01, 0x09];
    let mut p = Parser::new(&data);
    let (_, mut sub) = p.descend(Tag::sequence()).unwrap();
    assert_eq!(sub.left(), 3);
    let inner = Integer::parse(&mut sub).unwrap();
    assert_eq!(inner.as_usize(), Ok(7));
    assert_eq!(sub.left(), 0);
    assert_eq!(Integer::parse(&mut sub), Err(Error::EndOfInput));
    // the parent continues after the whole TLV
    let next = Integer::parse(&mut p).unwrap();
    assert_eq!(next.as_usize(), Ok(9));
}

#[test]
fn encoder_capacity_exhausted() {
    let key_bytes = rsa_public_key_1k();
    let key = RSAPublicKey::parse(&mut Parser::new(&key_bytes)).unwrap();
    let mut buf = vec![0u8; 8];
    let mut enc = Encoder::new(&buf);
    assert!(key.encode(&mut buf, &mut enc).is_err());
}

#[test]
fn encoded_length_for_headers() {
    assert_eq!(asn1::encoded_length_for(0), 2);
    assert_eq!(asn1::encoded_length_for(0x7f), 0x81);
    assert_eq!(asn1::encoded_length_for(0x80), 0x83);
    assert_eq!(asn1::encoded_length_for(0xff), 0x102);
    assert_eq!(asn1::encoded_length_for(0x100), 0x104);
    assert_eq!(asn1::encoded_length_for(0xffff), 0x10003);
}

#[test]
fn long_form_length_encoding() {
    // a 200-byte body takes the 0x81 long form
    let payload = vec![5u8; 200];
    let os = OctetString { octets: &payload };
    assert_eq!(os.encoded_len(), 203);
    let mut buf = vec![0u8; 203];
    let mut enc = Encoder::new(&buf);
    let n = os.encode(&mut buf, &mut enc).unwrap();
    assert_eq!(n, 203);
    assert_eq!(&buf[..3], &[0x04, 0x81, 0xc8]);
    let back = OctetString::parse(&mut Parser::new(&buf)).unwrap();
    assert_eq!(back.octets, payload.as_slice());
}
