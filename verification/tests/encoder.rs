use oxstore::binary_encoder::{
    decode_term, encode_term, encode_term_pair, write_gosp_quad, write_gpos_quad,
    write_gspo_quad, write_osp_quad, write_ospg_quad, write_pos_quad, write_posg_quad,
    write_spo_quad, write_spog_quad, write_term, QuadEncoding, LATEST_STORAGE_VERSION,
    WRITTEN_TERM_MAX_SIZE,
};
use oxstore::numeric_encoder::{EncodedQuad, EncodedTerm, StrHash};
use oxstore::small_string::SmallString;

fn small(s: &str) -> SmallString {
    SmallString::new(s).expect("string fits the inline budget")
}

fn sample_terms() -> Vec<EncodedTerm> {
    vec![
        EncodedTerm::DefaultGraph,
        EncodedTerm::NamedNode {
            iri_id: StrHash::new("http://example.com/a-rather-long-iri"),
        },
        EncodedTerm::SmallNamedNode { iri: small("ex:a") },
        EncodedTerm::BigBlankNode {
            id_id: StrHash::new("blank-node-with-a-long-identifier"),
        },
        EncodedTerm::SmallBlankNode { id: small("b0") },
        EncodedTerm::SmallStringLiteral { value: small("v") },
        EncodedTerm::BigStringLiteral {
            value_id: StrHash::new("a literal that is far too long to inline"),
        },
        EncodedTerm::SmallSmallLangStringLiteral {
            value: small("chat"),
            language: small("fr"),
        },
        EncodedTerm::SmallBigLangStringLiteral {
            value: small("hi"),
            language_id: StrHash::new("x-this-language-tag-is-very-long"),
        },
        EncodedTerm::BigSmallLangStringLiteral {
            value_id: StrHash::new("another very long literal lexical form"),
            language: small("en"),
        },
        EncodedTerm::BigBigLangStringLiteral {
            value_id: StrHash::new("long value needing the interner"),
            language_id: StrHash::new("x-another-overlong-language-tag"),
        },
        EncodedTerm::SmallTypedLiteral {
            value: small("42"),
            datatype_id: StrHash::new("http://www.w3.org/2001/XMLSchema#integer"),
        },
        EncodedTerm::BigTypedLiteral {
            value_id: StrHash::new("9999999999999999999999999999999999"),
            datatype_id: StrHash::new("http://www.w3.org/2001/XMLSchema#decimal"),
        },
    ]
}

#[test]
fn term_write_decode_round_trip() {
    for term in sample_terms() {
        let mut buffer = Vec::new();
        write_term(&mut buffer, &term);
        assert!(buffer.len() >= 1);
        assert!(buffer.len() <= WRITTEN_TERM_MAX_SIZE);
        let (decoded, consumed) = decode_term(buffer.as_slice(), 0).expect("decodes");
        assert_eq!(decoded, term);
        assert_eq!(consumed, buffer.len());
    }
}

#[test]
fn term_decode_ignores_trailing_bytes() {
    let term = EncodedTerm::SmallStringLiteral { value: small("v") };
    let mut buffer = Vec::new();
    write_term(&mut buffer, &term);
    let written = buffer.len();
    buffer.push(0xAB);
    buffer.push(0xCD);
    let (decoded, consumed) = decode_term(buffer.as_slice(), 0).expect("decodes");
    assert_eq!(decoded, term);
    assert_eq!(consumed, written);
}

#[test]
fn term_decode_rejects_truncated_input() {
    let term = EncodedTerm::NamedNode {
        iri_id: StrHash::new("http://example.com/x"),
    };
    let mut buffer = Vec::new();
    write_term(&mut buffer, &term);
    buffer.pop();
    assert!(decode_term(buffer.as_slice(), 0).is_none());
}

#[test]
fn term_decode_rejects_unknown_tag() {
    let buffer = vec![0x7Fu8, 0, 0];
    assert!(decode_term(buffer.as_slice(), 0).is_none());
}

fn sample_named_quad() -> EncodedQuad {
    EncodedQuad::new(
        EncodedTerm::SmallNamedNode { iri: small("ex:s") },
        EncodedTerm::SmallNamedNode { iri: small("ex:p") },
        EncodedTerm::BigStringLiteral {
            value_id: StrHash::new("some long object value for the test"),
        },
        EncodedTerm::SmallNamedNode { iri: small("ex:g") },
    )
}

fn sample_default_quad() -> EncodedQuad {
    EncodedQuad::new(
        EncodedTerm::SmallNamedNode { iri: small("ex:s") },
        EncodedTerm::SmallNamedNode { iri: small("ex:p") },
        EncodedTerm::SmallStringLiteral { value: small("v") },
        EncodedTerm::DefaultGraph,
    )
}

#[test]
fn quad_key_round_trip_named_orders() {
    let quad = sample_named_quad();
    let writers: Vec<(QuadEncoding, fn(&mut Vec<u8>, &EncodedQuad))> = vec![
        (QuadEncoding::Spog, write_spog_quad),
        (QuadEncoding::Posg, write_posg_quad),
        (QuadEncoding::Ospg, write_ospg_quad),
        (QuadEncoding::Gspo, write_gspo_quad),
        (QuadEncoding::Gpos, write_gpos_quad),
        (QuadEncoding::Gosp, write_gosp_quad),
    ];
    for (encoding, writer) in writers {
        let mut key = Vec::new();
        writer(&mut key, &quad);
        let decoded = encoding.decode(key.as_slice()).expect("decodes");
        assert_eq!(decoded, quad);
    }
}

#[test]
fn quad_key_round_trip_default_orders() {
    let quad = sample_default_quad();
    let writers: Vec<(QuadEncoding, fn(&mut Vec<u8>, &EncodedQuad))> = vec![
        (QuadEncoding::Dspo, write_spo_quad),
        (QuadEncoding::Dpos, write_pos_quad),
        (QuadEncoding::Dosp, write_osp_quad),
    ];
    for (encoding, writer) in writers {
        let mut key = Vec::new();
        writer(&mut key, &quad);
        let decoded = encoding.decode(key.as_slice()).expect("decodes");
        assert_eq!(decoded, quad);
    }
}

#[test]
fn quad_key_rejects_trailing_bytes() {
    let quad = sample_named_quad();
    let mut key = Vec::new();
    write_spog_quad(&mut key, &quad);
    key.push(0);
    assert!(QuadEncoding::Spog.decode(key.as_slice()).is_none());
}

#[test]
fn encoded_keys_are_prefix_addressable() {
    let quad = sample_named_quad();
    let mut key = Vec::new();
    write_spog_quad(&mut key, &quad);
    let prefix = encode_term_pair(&quad.subject, &quad.predicate);
    assert!(key.starts_with(prefix.as_slice()));
    let other = encode_term(&EncodedTerm::SmallNamedNode { iri: small("ex:q") });
    assert!(!key.starts_with(other.as_slice()));
}

#[test]
fn str_hash_is_deterministic_and_big_endian() {
    assert_eq!(
        StrHash::new("").hash,
        0x6c62272e07bb014262b821756295c58d_u128
    );
    let h = StrHash::new("hello");
    assert_eq!(h, StrHash::new("hello"));
    assert_ne!(h, StrHash::new("hellp"));
    let bytes = h.to_be_bytes();
    assert_eq!(bytes.len(), 16);
    assert_eq!(bytes[0], (h.hash >> 120) as u8);
    assert_eq!(bytes[15], (h.hash & 0xff) as u8);
    assert_eq!(StrHash::from_be_bytes(bytes.as_slice()), h);
}

#[test]
fn small_string_respects_inline_budget() {
    assert!(SmallString::new("123456789012345").is_some());
    assert!(SmallString::new("1234567890123456").is_none());
    let s = small("abc");
    assert_eq!(s.as_bytes(), b"abc");
    assert_eq!(s.len(), 3);
    assert!(!s.is_empty());
}

#[test]
fn latest_storage_version_is_one() {
    assert_eq!(LATEST_STORAGE_VERSION, 1);
}
