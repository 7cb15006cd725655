//! A verified DER (Distinguished Encoding Rules) codec for cryptographic key
//! material: a Tag-Length-Value parsing and encoding engine for the canonical
//! subset of ASN.1, together with record and enumeration types for RSA and
//! elliptic-curve key structures.

mod any;
mod codec;
mod encoder;
mod enums;
mod err;
mod integer;
mod null;
mod octets;
mod oid;
mod parser;
mod records;
mod tag;
mod wire;

pub use encoder::encoded_length_for;
pub use encoder::encoder_inv;
pub use encoder::Encoder;
pub use any::{any_decodable, lemma_any_dec_unique, lemma_any_enc_dec, lemma_opt_any_dec_unique, lemma_opt_any_enc_dec, opt_any_decodable, Any};
pub use codec::encode_post;
pub use codec::Type;
pub use enums::{enum_dec_ok, enum_dec_res, enum_enc, lemma_enum_dec_unique, lemma_enum_enc_dec, EcPrivateKeyVer, Version};
pub use err::Error;
pub use null::{lemma_null_dec_unique, lemma_null_enc_dec, Null};
pub use octets::{lemma_octet_string_dec_unique, lemma_octet_string_enc_dec, OctetString};
pub use oid::{comp_enc, hi_bytes, id_ec_public_key, id_md5, id_prime256v1, lemma_object_id_dec_unique, lemma_object_id_enc_dec, oid_enc, oid_tail, ObjectId};
pub use integer::{all_zero, be_uint, canon, canonical_integer_fixed_point, is_minimal, lemma_canon_idempotent, spec_is_neg, Integer};
pub use parser::Parser;
pub use records::{lemma_algorithm_identifier_dec_unique, lemma_algorithm_identifier_enc_dec, lemma_ec_private_key_dec_unique, lemma_ec_private_key_enc_dec, lemma_private_key_info_dec_unique, lemma_private_key_info_enc_dec, lemma_rsa_private_key_dec_unique, lemma_rsa_private_key_enc_dec, lemma_rsa_public_key_dec_unique, lemma_rsa_public_key_enc_dec, round_trip_algorithm_identifier, round_trip_ec_private_key, round_trip_private_key_info, round_trip_rsa_private_key, round_trip_rsa_public_key, AlgorithmIdentifier, EcPrivateKey, PrivateKeyInfo, RSAPrivateKey, RSAPublicKey};
pub use tag::Tag;
