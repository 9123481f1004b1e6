//! The binary term and quad encoding.
//!
//! Every term is written as one type-tag byte followed by its payload: a
//! 16-byte big-endian hash for interned strings, or one length byte and the
//! raw bytes for inline strings.  The encoding is self-delimiting and
//! prefix-free, so composite index keys are plain concatenations and a prefix
//! scan with the encodings of the bound positions matches exactly the keys
//! whose leading terms equal those positions.

use vstd::prelude::*;
use crate::numeric_encoder::{EncodedQuad, EncodedTerm, QuadModel, StrHash, TermModel,
    spec_u128_be_bytes, spec_u128_from_be_bytes, lemma_u128_be_bytes};
use crate::small_string::SmallString;
use vstd::slice::slice_subrange;

verus! {

/// Version tag written under the reserved `oxversion` key; `open` refuses a
/// store whose tag differs (after the one supported migration).
pub const LATEST_STORAGE_VERSION: u64 = 1;

/// Upper bound on the length of one written term: a tag byte plus at most two
/// 16-byte payloads.
pub const WRITTEN_TERM_MAX_SIZE: usize = 33;

pub const TYPE_DEFAULT_GRAPH_ID: u8 = 0;

pub const TYPE_NAMED_NODE_ID: u8 = 1;

pub const TYPE_SMALL_NAMED_NODE_ID: u8 = 2;

pub const TYPE_BIG_BLANK_NODE_ID: u8 = 3;

pub const TYPE_SMALL_BLANK_NODE_ID: u8 = 4;

pub const TYPE_SMALL_STRING_LITERAL_ID: u8 = 5;

pub const TYPE_BIG_STRING_LITERAL_ID: u8 = 6;

pub const TYPE_SMALL_SMALL_LANG_STRING_LITERAL_ID: u8 = 7;

pub const TYPE_SMALL_BIG_LANG_STRING_LITERAL_ID: u8 = 8;

pub const TYPE_BIG_SMALL_LANG_STRING_LITERAL_ID: u8 = 9;

pub const TYPE_BIG_BIG_LANG_STRING_LITERAL_ID: u8 = 10;

pub const TYPE_SMALL_TYPED_LITERAL_ID: u8 = 11;

pub const TYPE_BIG_TYPED_LITERAL_ID: u8 = 12;

/// `pre` is an initial segment of `s`.
pub open spec fn starts_with(pre: Seq<u8>, s: Seq<u8>) -> bool {
    pre.is_prefix_of(s)
}

/// Strict byte-lexicographic order: `a` comes before `b` when `a` is a
/// proper prefix of `b`, or the first differing byte of `a` is smaller.
pub open spec fn lex_lt(a: Seq<u8>, b: Seq<u8>) -> bool
    decreases a.len(),
{
    if b.len() == 0 {
        false
    } else if a.len() == 0 {
        true
    } else if a[0] < b[0] {
        true
    } else if a[0] > b[0] {
        false
    } else {
        lex_lt(a.drop_first(), b.drop_first())
    }
}

/// The written form of an inline string: one length byte, then the bytes.
pub open spec fn spec_small_bytes(s: Seq<u8>) -> Seq<u8> {
    seq![s.len() as u8] + s
}

/// The written form of an interned string: its 16-byte big-endian hash.
pub open spec fn spec_hash_bytes(h: u128) -> Seq<u8> {
    spec_u128_be_bytes(h)
}

/// The written form of one term.
pub open spec fn spec_write_term(t: TermModel) -> Seq<u8> {
    match t {
        TermModel::DefaultGraph => seq![TYPE_DEFAULT_GRAPH_ID],
        TermModel::NamedNode { iri_id } => seq![TYPE_NAMED_NODE_ID] + spec_hash_bytes(iri_id),
        TermModel::SmallNamedNode { iri } => seq![TYPE_SMALL_NAMED_NODE_ID]
            + spec_small_bytes(iri),
        TermModel::BigBlankNode { id_id } => seq![TYPE_BIG_BLANK_NODE_ID]
            + spec_hash_bytes(id_id),
        TermModel::SmallBlankNode { id } => seq![TYPE_SMALL_BLANK_NODE_ID]
            + spec_small_bytes(id),
        TermModel::SmallStringLiteral { value } => seq![TYPE_SMALL_STRING_LITERAL_ID]
            + spec_small_bytes(value),
        TermModel::BigStringLiteral { value_id } => seq![TYPE_BIG_STRING_LITERAL_ID]
            + spec_hash_bytes(value_id),
        TermModel::SmallSmallLangStringLiteral { value, language } =>
            seq![TYPE_SMALL_SMALL_LANG_STRING_LITERAL_ID] + spec_small_bytes(value)
                + spec_small_bytes(language),
        TermModel::SmallBigLangStringLiteral { value, language_id } =>
            seq![TYPE_SMALL_BIG_LANG_STRING_LITERAL_ID] + spec_small_bytes(value)
                + spec_hash_bytes(language_id),
        TermModel::BigSmallLangStringLiteral { value_id, language } =>
            seq![TYPE_BIG_SMALL_LANG_STRING_LITERAL_ID] + spec_hash_bytes(value_id)
                + spec_small_bytes(language),
        TermModel::BigBigLangStringLiteral { value_id, language_id } =>
            seq![TYPE_BIG_BIG_LANG_STRING_LITERAL_ID] + spec_hash_bytes(value_id)
                + spec_hash_bytes(language_id),
        TermModel::SmallTypedLiteral { value, datatype_id } =>
            seq![TYPE_SMALL_TYPED_LITERAL_ID] + spec_small_bytes(value)
                + spec_hash_bytes(datatype_id),
        TermModel::BigTypedLiteral { value_id, datatype_id } =>
            seq![TYPE_BIG_TYPED_LITERAL_ID] + spec_hash_bytes(value_id)
                + spec_hash_bytes(datatype_id),
    }
}

/// Parses one inline-string payload from the head of `s`: the consumed length
/// and the bytes.
pub open spec fn spec_parse_small(s: Seq<u8>) -> Option<(Seq<u8>, int)> {
    if s.len() < 1 {
        None
    } else {
        let n = s[0] as int;
        if n <= 15 && 1 + n <= s.len() {
            Some((s.subrange(1, 1 + n), 1 + n))
        } else {
            None
        }
    }
}

/// Parses one 16-byte hash payload from the head of `s`.
pub open spec fn spec_parse_hash(s: Seq<u8>) -> Option<(u128, int)> {
    if s.len() >= 16 {
        Some((spec_u128_from_be_bytes(s.take(16)), 16))
    } else {
        None
    }
}

/// Parses exactly one term from the head of `s`; returns the term and the
/// number of bytes consumed.
pub open spec fn spec_decode_term(s: Seq<u8>) -> Option<(TermModel, int)> {
    if s.len() < 1 {
        None
    } else {
        let tag = s[0];
        let rest = s.skip(1);
        if tag == TYPE_DEFAULT_GRAPH_ID {
            Some((TermModel::DefaultGraph, 1))
        } else if tag == TYPE_NAMED_NODE_ID {
            match spec_parse_hash(rest) {
                Some((h, n)) => Some((TermModel::NamedNode { iri_id: h }, 1 + n)),
                None => None,
            }
        } else if tag == TYPE_SMALL_NAMED_NODE_ID {
            match spec_parse_small(rest) {
                Some((b, n)) => Some((TermModel::SmallNamedNode { iri: b }, 1 + n)),
                None => None,
            }
        } else if tag == TYPE_BIG_BLANK_NODE_ID {
            match spec_parse_hash(rest) {
                Some((h, n)) => Some((TermModel::BigBlankNode { id_id: h }, 1 + n)),
                None => None,
            }
        } else if tag == TYPE_SMALL_BLANK_NODE_ID {
            match spec_parse_small(rest) {
                Some((b, n)) => Some((TermModel::SmallBlankNode { id: b }, 1 + n)),
                None => None,
            }
        } else if tag == TYPE_SMALL_STRING_LITERAL_ID {
            match spec_parse_small(rest) {
                Some((b, n)) => Some((TermModel::SmallStringLiteral { value: b }, 1 + n)),
                None => None,
            }
        } else if tag == TYPE_BIG_STRING_LITERAL_ID {
            match spec_parse_hash(rest) {
                Some((h, n)) => Some((TermModel::BigStringLiteral { value_id: h }, 1 + n)),
                None => None,
            }
        } else if tag == TYPE_SMALL_SMALL_LANG_STRING_LITERAL_ID {
            match spec_parse_small(rest) {
                Some((v, n1)) => match spec_parse_small(rest.skip(n1)) {
                    Some((l, n2)) => Some((
                        TermModel::SmallSmallLangStringLiteral { value: v, language: l },
                        1 + n1 + n2,
                    )),
                    None => None,
                },
                None => None,
            }
        } else if tag == TYPE_SMALL_BIG_LANG_STRING_LITERAL_ID {
            match spec_parse_small(rest) {
                Some((v, n1)) => match spec_parse_hash(rest.skip(n1)) {
                    Some((l, n2)) => Some((
                        TermModel::SmallBigLangStringLiteral { value: v, language_id: l },
                        1 + n1 + n2,
                    )),
                    None => None,
                },
                None => None,
            }
        } else if tag == TYPE_BIG_SMALL_LANG_STRING_LITERAL_ID {
            match spec_parse_hash(rest) {
                Some((v, n1)) => match spec_parse_small(rest.skip(n1)) {
                    Some((l, n2)) => Some((
                        TermModel::BigSmallLangStringLiteral { value_id: v, language: l },
                        1 + n1 + n2,
                    )),
                    None => None,
                },
                None => None,
            }
        } else if tag == TYPE_BIG_BIG_LANG_STRING_LITERAL_ID {
            match spec_parse_hash(rest) {
                Some((v, n1)) => match spec_parse_hash(rest.skip(n1)) {
                    Some((l, n2)) => Some((
                        TermModel::BigBigLangStringLiteral { value_id: v, language_id: l },
                        1 + n1 + n2,
                    )),
                    None => None,
                },
                None => None,
            }
        } else if tag == TYPE_SMALL_TYPED_LITERAL_ID {
            match spec_parse_small(rest) {
                Some((v, n1)) => match spec_parse_hash(rest.skip(n1)) {
                    Some((d, n2)) => Some((
                        TermModel::SmallTypedLiteral { value: v, datatype_id: d },
                        1 + n1 + n2,
                    )),
                    None => None,
                },
                None => None,
            }
        } else if tag == TYPE_BIG_TYPED_LITERAL_ID {
            match spec_parse_hash(rest) {
                Some((v, n1)) => match spec_parse_hash(rest.skip(n1)) {
                    Some((d, n2)) => Some((
                        TermModel::BigTypedLiteral { value_id: v, datatype_id: d },
                        1 + n1 + n2,
                    )),
                    None => None,
                },
                None => None,
            }
        } else {
            None
        }
    }
}

/// Appends the 16-byte big-endian form of `h` to `buffer`.
fn push_hash(buffer: &mut Vec<u8>, h: &StrHash)
    ensures
        final(buffer)@ == old(buffer)@ + spec_hash_bytes(h.hash),
{
    let bytes = h.to_be_bytes();
    buffer.extend_from_slice(bytes.as_slice());
}

/// Appends the length byte and the bytes of `s` to `buffer`.
fn push_small(buffer: &mut Vec<u8>, s: &SmallString)
    requires
        s.wf(),
    ensures
        final(buffer)@ == old(buffer)@ + spec_small_bytes(s@),
{
    let n = s.len();
    buffer.push(n as u8);
    buffer.extend_from_slice(s.as_bytes());
    proof {
        assert(buffer@ =~= old(buffer)@ + spec_small_bytes(s@));
    }
}

/// Appends the self-delimiting written form of `term` to `buffer`.
pub fn write_term(buffer: &mut Vec<u8>, term: &EncodedTerm)
    requires
        term.wf(),
    ensures
        final(buffer)@ == old(buffer)@ + spec_write_term(term@),
{
    match term {
        EncodedTerm::DefaultGraph => {
            buffer.push(TYPE_DEFAULT_GRAPH_ID);
            proof {
                assert(buffer@ =~= old(buffer)@ + spec_write_term(term@));
            }
        },
        EncodedTerm::NamedNode { iri_id } => {
            buffer.push(TYPE_NAMED_NODE_ID);
            push_hash(buffer, iri_id);
            proof {
                assert(buffer@ =~= old(buffer)@ + spec_write_term(term@));
            }
        },
        EncodedTerm::SmallNamedNode { iri } => {
            buffer.push(TYPE_SMALL_NAMED_NODE_ID);
            push_small(buffer, iri);
            proof {
                assert(buffer@ =~= old(buffer)@ + spec_write_term(term@));
            }
        },
        EncodedTerm::BigBlankNode { id_id } => {
            buffer.push(TYPE_BIG_BLANK_NODE_ID);
            push_hash(buffer, id_id);
            proof {
                assert(buffer@ =~= old(buffer)@ + spec_write_term(term@));
            }
        },
        EncodedTerm::SmallBlankNode { id } => {
            buffer.push(TYPE_SMALL_BLANK_NODE_ID);
            push_small(buffer, id);
            proof {
                assert(buffer@ =~= old(buffer)@ + spec_write_term(term@));
            }
        },
        EncodedTerm::SmallStringLiteral { value } => {
            buffer.push(TYPE_SMALL_STRING_LITERAL_ID);
            push_small(buffer, value);
            proof {
                assert(buffer@ =~= old(buffer)@ + spec_write_term(term@));
            }
        },
        EncodedTerm::BigStringLiteral { value_id } => {
            buffer.push(TYPE_BIG_STRING_LITERAL_ID);
            push_hash(buffer, value_id);
            proof {
                assert(buffer@ =~= old(buffer)@ + spec_write_term(term@));
            }
        },
        EncodedTerm::SmallSmallLangStringLiteral { value, language } => {
            buffer.push(TYPE_SMALL_SMALL_LANG_STRING_LITERAL_ID);
            push_small(buffer, value);
            push_small(buffer, language);
            proof {
                assert(buffer@ =~= old(buffer)@ + spec_write_term(term@));
            }
        },
        EncodedTerm::SmallBigLangStringLiteral { value, language_id } => {
            buffer.push(TYPE_SMALL_BIG_LANG_STRING_LITERAL_ID);
            push_small(buffer, value);
            push_hash(buffer, language_id);
            proof {
                assert(buffer@ =~= old(buffer)@ + spec_write_term(term@));
            }
        },
        EncodedTerm::BigSmallLangStringLiteral { value_id, language } => {
            buffer.push(TYPE_BIG_SMALL_LANG_STRING_LITERAL_ID);
            push_hash(buffer, value_id);
            push_small(buffer, language);
            proof {
                assert(buffer@ =~= old(buffer)@ + spec_write_term(term@));
            }
        },
        EncodedTerm::BigBigLangStringLiteral { value_id, language_id } => {
            buffer.push(TYPE_BIG_BIG_LANG_STRING_LITERAL_ID);
            push_hash(buffer, value_id);
            push_hash(buffer, language_id);
            proof {
                assert(buffer@ =~= old(buffer)@ + spec_write_term(term@));
            }
        },
        EncodedTerm::SmallTypedLiteral { value, datatype_id } => {
            buffer.push(TYPE_SMALL_TYPED_LITERAL_ID);
            push_small(buffer, value);
            push_hash(buffer, datatype_id);
            proof {
                assert(buffer@ =~= old(buffer)@ + spec_write_term(term@));
            }
        },
        EncodedTerm::BigTypedLiteral { value_id, datatype_id } => {
            buffer.push(TYPE_BIG_TYPED_LITERAL_ID);
            push_hash(buffer, value_id);
            push_hash(buffer, datatype_id);
            proof {
                assert(buffer@ =~= old(buffer)@ + spec_write_term(term@));
            }
        },
    }
}

/// Parses one inline-string payload at `pos`.
fn parse_small(bytes: &[u8], pos: usize) -> (r: Option<(SmallString, usize)>)
    requires
        pos <= bytes@.len(),
    ensures
        match spec_parse_small(bytes@.skip(pos as int)) {
            Some(p) => r matches Some(e) && e.0@ == p.0 && e.0.wf() && e.1 == pos + p.1
                && e.1 <= bytes@.len(),
            None => r is None,
        },
{
    if bytes.len() - pos < 1 {
        return None;
    }
    let n = *vstd::slice::slice_index_get(bytes, pos) as usize;
    if n <= 15 && 1 + n <= bytes.len() - pos {
        let sub = slice_subrange(bytes, pos + 1, pos + 1 + n);
        proof {
            assert(sub@ =~= bytes@.skip(pos as int).subrange(1, 1 + n as int));
        }
        match SmallString::from_bytes(sub) {
            Some(s) => Some((s, pos + 1 + n)),
            None => None,
        }
    } else {
        None
    }
}

/// Parses one 16-byte hash payload at `pos`.
fn parse_hash(bytes: &[u8], pos: usize) -> (r: Option<(StrHash, usize)>)
    requires
        pos <= bytes@.len(),
    ensures
        match spec_parse_hash(bytes@.skip(pos as int)) {
            Some(p) => r matches Some(e) && e.0.hash == p.0 && e.1 == pos + p.1
                && e.1 <= bytes@.len(),
            None => r is None,
        },
{
    if bytes.len() - pos >= 16 {
        let sub = slice_subrange(bytes, pos, pos + 16);
        proof {
            assert(sub@ =~= bytes@.skip(pos as int).take(16));
        }
        Some((StrHash::from_be_bytes(sub), pos + 16))
    } else {
        None
    }
}

/// Parses exactly one term at `pos`; returns the term and the position just
/// after it.  `decode_term(buf, 0)` after `write_term(buf, t)` gives back `t`.
#[verifier::rlimit(60)]
pub fn decode_term(bytes: &[u8], pos: usize) -> (r: Option<(EncodedTerm, usize)>)
    requires
        pos <= bytes@.len(),
    ensures
        match spec_decode_term(bytes@.skip(pos as int)) {
            Some(p) => r matches Some(e) && e.0@ == p.0 && e.0.wf() && e.1 == pos + p.1
                && e.1 <= bytes@.len(),
            None => r is None,
        },
{
    if bytes.len() - pos < 1 {
        return None;
    }
    let ghost rest = bytes@.skip(pos as int).skip(1);
    proof {
        assert(rest =~= bytes@.skip(pos + 1));
    }
    let tag = *vstd::slice::slice_index_get(bytes, pos);
    if tag == TYPE_DEFAULT_GRAPH_ID {
        Some((EncodedTerm::DefaultGraph, pos + 1))
    } else if tag == TYPE_NAMED_NODE_ID {
        match parse_hash(bytes, pos + 1) {
            Some((h, next)) => Some((EncodedTerm::NamedNode { iri_id: h }, next)),
            None => None,
        }
    } else if tag == TYPE_SMALL_NAMED_NODE_ID {
        match parse_small(bytes, pos + 1) {
            Some((s, next)) => Some((EncodedTerm::SmallNamedNode { iri: s }, next)),
            None => None,
        }
    } else if tag == TYPE_BIG_BLANK_NODE_ID {
        match parse_hash(bytes, pos + 1) {
            Some((h, next)) => Some((EncodedTerm::BigBlankNode { id_id: h }, next)),
            None => None,
        }
    } else if tag == TYPE_SMALL_BLANK_NODE_ID {
        match parse_small(bytes, pos + 1) {
            Some((s, next)) => Some((EncodedTerm::SmallBlankNode { id: s }, next)),
            None => None,
        }
    } else if tag == TYPE_SMALL_STRING_LITERAL_ID {
        match parse_small(bytes, pos + 1) {
            Some((s, next)) => Some((EncodedTerm::SmallStringLiteral { value: s }, next)),
            None => None,
        }
    } else if tag == TYPE_BIG_STRING_LITERAL_ID {
        match parse_hash(bytes, pos + 1) {
            Some((h, next)) => Some((EncodedTerm::BigStringLiteral { value_id: h }, next)),
            None => None,
        }
    } else if tag == TYPE_SMALL_SMALL_LANG_STRING_LITERAL_ID {
        match parse_small(bytes, pos + 1) {
            Some((v, mid)) => {
                proof {
                    assert(bytes@.skip(mid as int) =~= rest.skip(mid - (pos + 1)));
                }
                match parse_small(bytes, mid) {
                    Some((l, next)) => Some((
                        EncodedTerm::SmallSmallLangStringLiteral { value: v, language: l },
                        next,
                    )),
                    None => None,
                }
            },
            None => None,
        }
    } else if tag == TYPE_SMALL_BIG_LANG_STRING_LITERAL_ID {
        match parse_small(bytes, pos + 1) {
            Some((v, mid)) => {
                proof {
                    assert(bytes@.skip(mid as int) =~= rest.skip(mid - (pos + 1)));
                }
                match parse_hash(bytes, mid) {
                    Some((l, next)) => Some((
                        EncodedTerm::SmallBigLangStringLiteral { value: v, language_id: l },
                        next,
                    )),
                    None => None,
                }
            },
            None => None,
        }
    } else if tag == TYPE_BIG_SMALL_LANG_STRING_LITERAL_ID {
        match parse_hash(bytes, pos + 1) {
            Some((v, mid)) => {
                proof {
                    assert(bytes@.skip(mid as int) =~= rest.skip(mid - (pos + 1)));
                }
                match parse_small(bytes, mid) {
                    Some((l, next)) => Some((
                        EncodedTerm::BigSmallLangStringLiteral { value_id: v, language: l },
                        next,
                    )),
                    None => None,
                }
            },
            None => None,
        }
    } else if tag == TYPE_BIG_BIG_LANG_STRING_LITERAL_ID {
        match parse_hash(bytes, pos + 1) {
            Some((v, mid)) => {
                proof {
                    assert(bytes@.skip(mid as int) =~= rest.skip(mid - (pos + 1)));
                }
                match parse_hash(bytes, mid) {
                    Some((l, next)) => Some((
                        EncodedTerm::BigBigLangStringLiteral { value_id: v, language_id: l },
                        next,
                    )),
                    None => None,
                }
            },
            None => None,
        }
    } else if tag == TYPE_SMALL_TYPED_LITERAL_ID {
        match parse_small(bytes, pos + 1) {
            Some((v, mid)) => {
                proof {
                    assert(bytes@.skip(mid as int) =~= rest.skip(mid - (pos + 1)));
                }
                match parse_hash(bytes, mid) {
                    Some((d, next)) => Some((
                        EncodedTerm::SmallTypedLiteral { value: v, datatype_id: d },
                        next,
                    )),
                    None => None,
                }
            },
            None => None,
        }
    } else if tag == TYPE_BIG_TYPED_LITERAL_ID {
        match parse_hash(bytes, pos + 1) {
            Some((v, mid)) => {
                proof {
                    assert(bytes@.skip(mid as int) =~= rest.skip(mid - (pos + 1)));
                }
                match parse_hash(bytes, mid) {
                    Some((d, next)) => Some((
                        EncodedTerm::BigTypedLiteral { value_id: v, datatype_id: d },
                        next,
                    )),
                    None => None,
                }
            },
            None => None,
        }
    } else {
        None
    }
}


/// The written form of one term is between 1 and `WRITTEN_TERM_MAX_SIZE`
/// bytes long.
pub proof fn lemma_write_term_len(t: TermModel)
    requires
        t.wf(),
    ensures
        1 <= spec_write_term(t).len() <= WRITTEN_TERM_MAX_SIZE,
{
    match t {
        TermModel::DefaultGraph => {},
        TermModel::NamedNode { iri_id } => { lemma_u128_be_bytes(iri_id); },
        TermModel::SmallNamedNode { .. } => {},
        TermModel::BigBlankNode { id_id } => { lemma_u128_be_bytes(id_id); },
        TermModel::SmallBlankNode { .. } => {},
        TermModel::SmallStringLiteral { .. } => {},
        TermModel::BigStringLiteral { value_id } => { lemma_u128_be_bytes(value_id); },
        TermModel::SmallSmallLangStringLiteral { .. } => {},
        TermModel::SmallBigLangStringLiteral { language_id, .. } => {
            lemma_u128_be_bytes(language_id);
        },
        TermModel::BigSmallLangStringLiteral { value_id, .. } => {
            lemma_u128_be_bytes(value_id);
        },
        TermModel::BigBigLangStringLiteral { value_id, language_id } => {
            lemma_u128_be_bytes(value_id);
            lemma_u128_be_bytes(language_id);
        },
        TermModel::SmallTypedLiteral { datatype_id, .. } => {
            lemma_u128_be_bytes(datatype_id);
        },
        TermModel::BigTypedLiteral { value_id, datatype_id } => {
            lemma_u128_be_bytes(value_id);
            lemma_u128_be_bytes(datatype_id);
        },
    }
}

proof fn lemma_parse_small_of(b: Seq<u8>, rest: Seq<u8>)
    requires
        b.len() <= 15,
    ensures
        spec_parse_small(spec_small_bytes(b) + rest) == Some((b, (b.len() + 1) as int)),
{
    let s = spec_small_bytes(b) + rest;
    assert(s[0] == b.len() as u8);
    assert(s.subrange(1, 1 + b.len() as int) =~= b);
}

proof fn lemma_parse_hash_of(h: u128, rest: Seq<u8>)
    ensures
        spec_parse_hash(spec_hash_bytes(h) + rest) == Some((h, 16int)),
{
    lemma_u128_be_bytes(h);
    assert((spec_hash_bytes(h) + rest).take(16) =~= spec_hash_bytes(h));
}

/// Law: decoding a stream that starts with a written term gives that term
/// back and consumes exactly its written bytes.
pub proof fn lemma_decode_write_term(t: TermModel, rest: Seq<u8>)
    requires
        t.wf(),
    ensures
        spec_decode_term(spec_write_term(t) + rest) == Some((t, spec_write_term(t).len() as int)),
{
    let w = spec_write_term(t);
    let s = w + rest;
    match t {
        TermModel::DefaultGraph => {},
        TermModel::NamedNode { iri_id } => {
            assert(s.skip(1) =~= spec_hash_bytes(iri_id) + rest);
            lemma_parse_hash_of(iri_id, rest);
            lemma_u128_be_bytes(iri_id);
        },
        TermModel::SmallNamedNode { iri } => {
            assert(s.skip(1) =~= spec_small_bytes(iri) + rest);
            lemma_parse_small_of(iri, rest);
        },
        TermModel::BigBlankNode { id_id } => {
            assert(s.skip(1) =~= spec_hash_bytes(id_id) + rest);
            lemma_parse_hash_of(id_id, rest);
            lemma_u128_be_bytes(id_id);
        },
        TermModel::SmallBlankNode { id } => {
            assert(s.skip(1) =~= spec_small_bytes(id) + rest);
            lemma_parse_small_of(id, rest);
        },
        TermModel::SmallStringLiteral { value } => {
            assert(s.skip(1) =~= spec_small_bytes(value) + rest);
            lemma_parse_small_of(value, rest);
        },
        TermModel::BigStringLiteral { value_id } => {
            assert(s.skip(1) =~= spec_hash_bytes(value_id) + rest);
            lemma_parse_hash_of(value_id, rest);
            lemma_u128_be_bytes(value_id);
        },
        TermModel::SmallSmallLangStringLiteral { value, language } => {
            let tail = spec_small_bytes(language) + rest;
            assert(s.skip(1) =~= spec_small_bytes(value) + tail);
            lemma_parse_small_of(value, tail);
            assert(s.skip(1).skip((value.len() + 1) as int) =~= tail);
            lemma_parse_small_of(language, rest);
        },
        TermModel::SmallBigLangStringLiteral { value, language_id } => {
            let tail = spec_hash_bytes(language_id) + rest;
            assert(s.skip(1) =~= spec_small_bytes(value) + tail);
            lemma_parse_small_of(value, tail);
            assert(s.skip(1).skip((value.len() + 1) as int) =~= tail);
            lemma_parse_hash_of(language_id, rest);
            lemma_u128_be_bytes(language_id);
        },
        TermModel::BigSmallLangStringLiteral { value_id, language } => {
            let tail = spec_small_bytes(language) + rest;
            lemma_u128_be_bytes(value_id);
            assert(s.skip(1) =~= spec_hash_bytes(value_id) + tail);
            lemma_parse_hash_of(value_id, tail);
            assert(s.skip(1).skip(16) =~= tail);
            lemma_parse_small_of(language, rest);
        },
        TermModel::BigBigLangStringLiteral { value_id, language_id } => {
            let tail = spec_hash_bytes(language_id) + rest;
            lemma_u128_be_bytes(value_id);
            lemma_u128_be_bytes(language_id);
            assert(s.skip(1) =~= spec_hash_bytes(value_id) + tail);
            lemma_parse_hash_of(value_id, tail);
            assert(s.skip(1).skip(16) =~= tail);
            lemma_parse_hash_of(language_id, rest);
        },
        TermModel::SmallTypedLiteral { value, datatype_id } => {
            let tail = spec_hash_bytes(datatype_id) + rest;
            assert(s.skip(1) =~= spec_small_bytes(value) + tail);
            lemma_parse_small_of(value, tail);
            assert(s.skip(1).skip((value.len() + 1) as int) =~= tail);
            lemma_parse_hash_of(datatype_id, rest);
            lemma_u128_be_bytes(datatype_id);
        },
        TermModel::BigTypedLiteral { value_id, datatype_id } => {
            let tail = spec_hash_bytes(datatype_id) + rest;
            lemma_u128_be_bytes(value_id);
            lemma_u128_be_bytes(datatype_id);
            assert(s.skip(1) =~= spec_hash_bytes(value_id) + tail);
            lemma_parse_hash_of(value_id, tail);
            assert(s.skip(1).skip(16) =~= tail);
            lemma_parse_hash_of(datatype_id, rest);
        },
    }
}

/// Law: the term encoding round-trips and never exceeds the written-term
/// size bound.
pub proof fn lemma_term_round_trip(t: TermModel, rest: Seq<u8>)
    requires
        t.wf(),
    ensures
        spec_decode_term(spec_write_term(t) + rest) == Some((t, spec_write_term(t).len() as int)),
        1 <= spec_write_term(t).len() <= WRITTEN_TERM_MAX_SIZE,
{
    lemma_decode_write_term(t, rest);
    lemma_write_term_len(t);
}

/// Law: written terms are prefix-free.  If a stream that starts with one
/// written term is a prefix of a stream that starts with another, the two
/// terms are equal and the remainders nest the same way.
pub proof fn lemma_write_term_peel(t1: TermModel, t2: TermModel, a: Seq<u8>, b: Seq<u8>)
    requires
        t1.wf(),
        t2.wf(),
        starts_with(spec_write_term(t1) + a, spec_write_term(t2) + b),
    ensures
        t1 == t2,
        starts_with(a, b),
{
    let wt = spec_write_term(t1);
    let wu = spec_write_term(t2);
    let s1 = wt + a;
    let s2 = wu + b;
    let tail = s2.skip(s1.len() as int);
    assert(s2 =~= s1 + tail);
    assert(wt + (a + tail) =~= s2);
    lemma_decode_write_term(t1, a + tail);
    lemma_decode_write_term(t2, b);
    assert(t1 == t2);
    assert(wt.len() == wu.len());
    assert(b.len() == a.len() + tail.len());
    assert forall|i: int| 0 <= i < b.len() implies b[i] == (a + tail)[i] by {
        assert(b[i] == s2[wu.len() + i]);
        assert(s2[wt.len() + i] == (s1 + tail)[wt.len() + i]);
        if i < a.len() {
            assert((s1 + tail)[wt.len() + i] == s1[wt.len() + i]);
            assert(s1[wt.len() + i] == a[i]);
        } else {
            assert((s1 + tail)[wt.len() + i] == tail[wt.len() + i - s1.len()]);
        }
    }
    assert(b =~= a + tail);
    assert(a =~= b.subrange(0, a.len() as int));
}


/// Selects one of the nine key orderings; named after the positions in key
/// order (`D*` keyspaces hold default-graph quads and omit the graph term).
#[derive(Clone, Copy, Debug, PartialEq, Eq, Hash)]
pub enum QuadEncoding {
    Spog,
    Posg,
    Ospg,
    Gspo,
    Gpos,
    Gosp,
    Dspo,
    Dpos,
    Dosp,
}

/// The composite index key of `q` in the keyspace selected by `e`: the
/// written terms concatenated in key order.
pub open spec fn spec_quad_key(e: QuadEncoding, q: QuadModel) -> Seq<u8> {
    let ws = spec_write_term(q.subject);
    let wp = spec_write_term(q.predicate);
    let wo = spec_write_term(q.object);
    let wg = spec_write_term(q.graph_name);
    match e {
        QuadEncoding::Spog => ws + wp + wo + wg,
        QuadEncoding::Posg => wp + wo + ws + wg,
        QuadEncoding::Ospg => wo + ws + wp + wg,
        QuadEncoding::Gspo => wg + ws + wp + wo,
        QuadEncoding::Gpos => wg + wp + wo + ws,
        QuadEncoding::Gosp => wg + wo + ws + wp,
        QuadEncoding::Dspo => ws + wp + wo,
        QuadEncoding::Dpos => wp + wo + ws,
        QuadEncoding::Dosp => wo + ws + wp,
    }
}

/// The quads a keyspace may hold: named-graph quads for the six `g`-bearing
/// orders, default-graph quads for the three `D*` orders.
pub open spec fn quad_wf_for(e: QuadEncoding, q: QuadModel) -> bool {
    match e {
        QuadEncoding::Dspo | QuadEncoding::Dpos | QuadEncoding::Dosp => q.wf_default(),
        _ => q.wf_named(),
    }
}

/// Parses exactly three consecutive terms filling the whole of `s`.
pub open spec fn spec_decode3(s: Seq<u8>) -> Option<(TermModel, TermModel, TermModel)> {
    match spec_decode_term(s) {
        Some((t1, n1)) => match spec_decode_term(s.skip(n1)) {
            Some((t2, n2)) => match spec_decode_term(s.skip(n1 + n2)) {
                Some((t3, n3)) => if n1 + n2 + n3 == s.len() {
                    Some((t1, t2, t3))
                } else {
                    None
                },
                None => None,
            },
            None => None,
        },
        None => None,
    }
}

/// Parses exactly four consecutive terms filling the whole of `s`.
pub open spec fn spec_decode4(s: Seq<u8>) -> Option<(TermModel, TermModel, TermModel, TermModel)> {
    match spec_decode_term(s) {
        Some((t1, n1)) => match spec_decode_term(s.skip(n1)) {
            Some((t2, n2)) => match spec_decode_term(s.skip(n1 + n2)) {
                Some((t3, n3)) => match spec_decode_term(s.skip(n1 + n2 + n3)) {
                    Some((t4, n4)) => if n1 + n2 + n3 + n4 == s.len() {
                        Some((t1, t2, t3, t4))
                    } else {
                        None
                    },
                    None => None,
                },
                None => None,
            },
            None => None,
        },
        None => None,
    }
}

/// The quad stored under key `s` of the keyspace selected by `e`; the three
/// `D*` decoders synthesize the default-graph marker.
pub open spec fn spec_decode_quad(e: QuadEncoding, s: Seq<u8>) -> Option<QuadModel> {
    match e {
        QuadEncoding::Spog => match spec_decode4(s) {
            Some((a, b, c, d)) => Some(
                QuadModel { subject: a, predicate: b, object: c, graph_name: d },
            ),
            None => None,
        },
        QuadEncoding::Posg => match spec_decode4(s) {
            Some((a, b, c, d)) => Some(
                QuadModel { subject: c, predicate: a, object: b, graph_name: d },
            ),
            None => None,
        },
        QuadEncoding::Ospg => match spec_decode4(s) {
            Some((a, b, c, d)) => Some(
                QuadModel { subject: b, predicate: c, object: a, graph_name: d },
            ),
            None => None,
        },
        QuadEncoding::Gspo => match spec_decode4(s) {
            Some((a, b, c, d)) => Some(
                QuadModel { subject: b, predicate: c, object: d, graph_name: a },
            ),
            None => None,
        },
        QuadEncoding::Gpos => match spec_decode4(s) {
            Some((a, b, c, d)) => Some(
                QuadModel { subject: d, predicate: b, object: c, graph_name: a },
            ),
            None => None,
        },
        QuadEncoding::Gosp => match spec_decode4(s) {
            Some((a, b, c, d)) => Some(
                QuadModel { subject: c, predicate: d, object: b, graph_name: a },
            ),
            None => None,
        },
        QuadEncoding::Dspo => match spec_decode3(s) {
            Some((a, b, c)) => Some(
                QuadModel {
                    subject: a,
                    predicate: b,
                    object: c,
                    graph_name: TermModel::DefaultGraph,
                },
            ),
            None => None,
        },
        QuadEncoding::Dpos => match spec_decode3(s) {
            Some((a, b, c)) => Some(
                QuadModel {
                    subject: c,
                    predicate: a,
                    object: b,
                    graph_name: TermModel::DefaultGraph,
                },
            ),
            None => None,
        },
        QuadEncoding::Dosp => match spec_decode3(s) {
            Some((a, b, c)) => Some(
                QuadModel {
                    subject: b,
                    predicate: c,
                    object: a,
                    graph_name: TermModel::DefaultGraph,
                },
            ),
            None => None,
        },
    }
}

/// Appends the `SPOG` key of `quad` to `buffer`.
pub fn write_spog_quad(buffer: &mut Vec<u8>, quad: &EncodedQuad)
    requires
        quad.wf(),
    ensures
        final(buffer)@ == old(buffer)@ + spec_quad_key(QuadEncoding::Spog, quad@),
{
    write_term(buffer, &quad.subject);
    write_term(buffer, &quad.predicate);
    write_term(buffer, &quad.object);
    write_term(buffer, &quad.graph_name);
    proof {
        assert(buffer@ =~= old(buffer)@ + spec_quad_key(QuadEncoding::Spog, quad@));
    }
}

/// Appends the `POSG` key of `quad` to `buffer`.
pub fn write_posg_quad(buffer: &mut Vec<u8>, quad: &EncodedQuad)
    requires
        quad.wf(),
    ensures
        final(buffer)@ == old(buffer)@ + spec_quad_key(QuadEncoding::Posg, quad@),
{
    write_term(buffer, &quad.predicate);
    write_term(buffer, &quad.object);
    write_term(buffer, &quad.subject);
    write_term(buffer, &quad.graph_name);
    proof {
        assert(buffer@ =~= old(buffer)@ + spec_quad_key(QuadEncoding::Posg, quad@));
    }
}

/// Appends the `OSPG` key of `quad` to `buffer`.
#[verifier::rlimit(50)]
#[verifier::spinoff_prover]
pub fn write_ospg_quad(buffer: &mut Vec<u8>, quad: &EncodedQuad)
    requires
        quad.wf(),
    ensures
        final(buffer)@ == old(buffer)@ + spec_quad_key(QuadEncoding::Ospg, quad@),
{
    write_term(buffer, &quad.object);
    write_term(buffer, &quad.subject);
    write_term(buffer, &quad.predicate);
    write_term(buffer, &quad.graph_name);
    proof {
        assert(buffer@ =~= old(buffer)@ + spec_quad_key(QuadEncoding::Ospg, quad@));
    }
}

/// Appends the `GSPO` key of `quad` to `buffer`.
pub fn write_gspo_quad(buffer: &mut Vec<u8>, quad: &EncodedQuad)
    requires
        quad.wf(),
    ensures
        final(buffer)@ == old(buffer)@ + spec_quad_key(QuadEncoding::Gspo, quad@),
{
    write_term(buffer, &quad.graph_name);
    write_term(buffer, &quad.subject);
    write_term(buffer, &quad.predicate);
    write_term(buffer, &quad.object);
    proof {
        assert(buffer@ =~= old(buffer)@ + spec_quad_key(QuadEncoding::Gspo, quad@));
    }
}

/// Appends the `GPOS` key of `quad` to `buffer`.
pub fn write_gpos_quad(buffer: &mut Vec<u8>, quad: &EncodedQuad)
    requires
        quad.wf(),
    ensures
        final(buffer)@ == old(buffer)@ + spec_quad_key(QuadEncoding::Gpos, quad@),
{
    write_term(buffer, &quad.graph_name);
    write_term(buffer, &quad.predicate);
    write_term(buffer, &quad.object);
    write_term(buffer, &quad.subject);
    proof {
        assert(buffer@ =~= old(buffer)@ + spec_quad_key(QuadEncoding::Gpos, quad@));
    }
}

/// Appends the `GOSP` key of `quad` to `buffer`.
pub fn write_gosp_quad(buffer: &mut Vec<u8>, quad: &EncodedQuad)
    requires
        quad.wf(),
    ensures
        final(buffer)@ == old(buffer)@ + spec_quad_key(QuadEncoding::Gosp, quad@),
{
    write_term(buffer, &quad.graph_name);
    write_term(buffer, &quad.object);
    write_term(buffer, &quad.subject);
    write_term(buffer, &quad.predicate);
    proof {
        assert(buffer@ =~= old(buffer)@ + spec_quad_key(QuadEncoding::Gosp, quad@));
    }
}

/// Appends the `DSPO` key of `quad` to `buffer` (graph term omitted).
pub fn write_spo_quad(buffer: &mut Vec<u8>, quad: &EncodedQuad)
    requires
        quad.wf(),
    ensures
        final(buffer)@ == old(buffer)@ + spec_quad_key(QuadEncoding::Dspo, quad@),
{
    write_term(buffer, &quad.subject);
    write_term(buffer, &quad.predicate);
    write_term(buffer, &quad.object);
    proof {
        assert(buffer@ =~= old(buffer)@ + spec_quad_key(QuadEncoding::Dspo, quad@));
    }
}

/// Appends the `DPOS` key of `quad` to `buffer` (graph term omitted).
pub fn write_pos_quad(buffer: &mut Vec<u8>, quad: &EncodedQuad)
    requires
        quad.wf(),
    ensures
        final(buffer)@ == old(buffer)@ + spec_quad_key(QuadEncoding::Dpos, quad@),
{
    write_term(buffer, &quad.predicate);
    write_term(buffer, &quad.object);
    write_term(buffer, &quad.subject);
    proof {
        assert(buffer@ =~= old(buffer)@ + spec_quad_key(QuadEncoding::Dpos, quad@));
    }
}

/// Appends the `DOSP` key of `quad` to `buffer` (graph term omitted).
pub fn write_osp_quad(buffer: &mut Vec<u8>, quad: &EncodedQuad)
    requires
        quad.wf(),
    ensures
        final(buffer)@ == old(buffer)@ + spec_quad_key(QuadEncoding::Dosp, quad@),
{
    write_term(buffer, &quad.object);
    write_term(buffer, &quad.subject);
    write_term(buffer, &quad.predicate);
    proof {
        assert(buffer@ =~= old(buffer)@ + spec_quad_key(QuadEncoding::Dosp, quad@));
    }
}

/// The written form of one term as a fresh buffer.
pub fn encode_term(t: &EncodedTerm) -> (r: Vec<u8>)
    requires
        t.wf(),
    ensures
        r@ == spec_write_term(t@),
{
    let mut buffer: Vec<u8> = Vec::with_capacity(WRITTEN_TERM_MAX_SIZE);
    write_term(&mut buffer, t);
    proof {
        assert(buffer@ =~= spec_write_term(t@));
    }
    buffer
}

/// The written forms of two terms, concatenated.
pub fn encode_term_pair(t1: &EncodedTerm, t2: &EncodedTerm) -> (r: Vec<u8>)
    requires
        t1.wf(),
        t2.wf(),
    ensures
        r@ == spec_write_term(t1@) + spec_write_term(t2@),
{
    let mut buffer: Vec<u8> = Vec::with_capacity(2 * WRITTEN_TERM_MAX_SIZE);
    write_term(&mut buffer, t1);
    write_term(&mut buffer, t2);
    proof {
        assert(buffer@ =~= spec_write_term(t1@) + spec_write_term(t2@));
    }
    buffer
}

/// The written forms of three terms, concatenated.
pub fn encode_term_triple(t1: &EncodedTerm, t2: &EncodedTerm, t3: &EncodedTerm) -> (r: Vec<u8>)
    requires
        t1.wf(),
        t2.wf(),
        t3.wf(),
    ensures
        r@ == spec_write_term(t1@) + spec_write_term(t2@) + spec_write_term(t3@),
{
    let mut buffer: Vec<u8> = Vec::with_capacity(3 * WRITTEN_TERM_MAX_SIZE);
    write_term(&mut buffer, t1);
    write_term(&mut buffer, t2);
    write_term(&mut buffer, t3);
    proof {
        assert(buffer@ =~= spec_write_term(t1@) + spec_write_term(t2@) + spec_write_term(t3@));
    }
    buffer
}

/// The written forms of four terms, concatenated.
pub fn encode_term_quad(
    t1: &EncodedTerm,
    t2: &EncodedTerm,
    t3: &EncodedTerm,
    t4: &EncodedTerm,
) -> (r: Vec<u8>)
    requires
        t1.wf(),
        t2.wf(),
        t3.wf(),
        t4.wf(),
    ensures
        r@ == spec_write_term(t1@) + spec_write_term(t2@) + spec_write_term(t3@)
            + spec_write_term(t4@),
{
    let mut buffer: Vec<u8> = Vec::with_capacity(4 * WRITTEN_TERM_MAX_SIZE);
    write_term(&mut buffer, t1);
    write_term(&mut buffer, t2);
    write_term(&mut buffer, t3);
    write_term(&mut buffer, t4);
    proof {
        assert(buffer@ =~= spec_write_term(t1@) + spec_write_term(t2@) + spec_write_term(t3@)
            + spec_write_term(t4@));
    }
    buffer
}

/// Parses three terms filling the whole of `bytes`.
fn decode_three(bytes: &[u8]) -> (r: Option<(EncodedTerm, EncodedTerm, EncodedTerm)>)
    ensures
        match spec_decode3(bytes@) {
            Some(p) => r matches Some(e) && e.0@ == p.0 && e.1@ == p.1 && e.2@ == p.2
                && e.0.wf() && e.1.wf() && e.2.wf(),
            None => r is None,
        },
{
    proof {
        assert(bytes@.skip(0) =~= bytes@);
    }
    let (t1, p1) = match decode_term(bytes, 0) {
        Some(x) => x,
        None => { return None; },
    };
    let (t2, p2) = match decode_term(bytes, p1) {
        Some(x) => x,
        None => { return None; },
    };
    let (t3, p3) = match decode_term(bytes, p2) {
        Some(x) => x,
        None => { return None; },
    };
    if p3 == bytes.len() {
        Some((t1, t2, t3))
    } else {
        None
    }
}

/// Parses four terms filling the whole of `bytes`.
fn decode_four(bytes: &[u8]) -> (r: Option<(EncodedTerm, EncodedTerm, EncodedTerm, EncodedTerm)>)
    ensures
        match spec_decode4(bytes@) {
            Some(p) => r matches Some(e) && e.0@ == p.0 && e.1@ == p.1 && e.2@ == p.2
                && e.3@ == p.3 && e.0.wf() && e.1.wf() && e.2.wf() && e.3.wf(),
            None => r is None,
        },
{
    proof {
        assert(bytes@.skip(0) =~= bytes@);
    }
    let (t1, p1) = match decode_term(bytes, 0) {
        Some(x) => x,
        None => { return None; },
    };
    let (t2, p2) = match decode_term(bytes, p1) {
        Some(x) => x,
        None => { return None; },
    };
    let (t3, p3) = match decode_term(bytes, p2) {
        Some(x) => x,
        None => { return None; },
    };
    let (t4, p4) = match decode_term(bytes, p3) {
        Some(x) => x,
        None => { return None; },
    };
    if p4 == bytes.len() {
        Some((t1, t2, t3, t4))
    } else {
        None
    }
}

impl QuadEncoding {
    /// Parses the quad stored under the whole key `bytes` of this keyspace.
    pub fn decode(self, bytes: &[u8]) -> (r: Option<EncodedQuad>)
        ensures
            match spec_decode_quad(self, bytes@) {
                Some(q) => r matches Some(e) && e@ == q && e.wf(),
                None => r is None,
            },
    {
        match self {
            QuadEncoding::Spog => match decode_four(bytes) {
                Some((a, b, c, d)) => Some(
                    EncodedQuad { subject: a, predicate: b, object: c, graph_name: d },
                ),
                None => None,
            },
            QuadEncoding::Posg => match decode_four(bytes) {
                Some((a, b, c, d)) => Some(
                    EncodedQuad { subject: c, predicate: a, object: b, graph_name: d },
                ),
                None => None,
            },
            QuadEncoding::Ospg => match decode_four(bytes) {
                Some((a, b, c, d)) => Some(
                    EncodedQuad { subject: b, predicate: c, object: a, graph_name: d },
                ),
                None => None,
            },
            QuadEncoding::Gspo => match decode_four(bytes) {
                Some((a, b, c, d)) => Some(
                    EncodedQuad { subject: b, predicate: c, object: d, graph_name: a },
                ),
                None => None,
            },
            QuadEncoding::Gpos => match decode_four(bytes) {
                Some((a, b, c, d)) => Some(
                    EncodedQuad { subject: d, predicate: b, object: c, graph_name: a },
                ),
                None => None,
            },
            QuadEncoding::Gosp => match decode_four(bytes) {
                Some((a, b, c, d)) => Some(
                    EncodedQuad { subject: c, predicate: d, object: b, graph_name: a },
                ),
                None => None,
            },
            QuadEncoding::Dspo => match decode_three(bytes) {
                Some((a, b, c)) => Some(
                    EncodedQuad {
                        subject: a,
                        predicate: b,
                        object: c,
                        graph_name: EncodedTerm::DefaultGraph,
                    },
                ),
                None => None,
            },
            QuadEncoding::Dpos => match decode_three(bytes) {
                Some((a, b, c)) => Some(
                    EncodedQuad {
                        subject: c,
                        predicate: a,
                        object: b,
                        graph_name: EncodedTerm::DefaultGraph,
                    },
                ),
                None => None,
            },
            QuadEncoding::Dosp => match decode_three(bytes) {
                Some((a, b, c)) => Some(
                    EncodedQuad {
                        subject: b,
                        predicate: c,
                        object: a,
                        graph_name: EncodedTerm::DefaultGraph,
                    },
                ),
                None => None,
            },
        }
    }
}

#[verifier::rlimit(100)]
#[verifier::spinoff_prover]
proof fn lemma_decode3_of(t1: TermModel, t2: TermModel, t3: TermModel)
    requires
        t1.wf(),
        t2.wf(),
        t3.wf(),
    ensures
        spec_decode3(
            spec_write_term(t1) + spec_write_term(t2) + spec_write_term(t3),
        ) == Some((t1, t2, t3)),
{
    let w1 = spec_write_term(t1);
    let w2 = spec_write_term(t2);
    let w3 = spec_write_term(t3);
    let s = w1 + w2 + w3;
    assert(s =~= w1 + (w2 + w3));
    lemma_decode_write_term(t1, w2 + w3);
    assert(s.skip(w1.len() as int) =~= w2 + w3);
    lemma_decode_write_term(t2, w3);
    assert(s.skip(w1.len() + w2.len() as int) =~= w3 + Seq::<u8>::empty());
    lemma_decode_write_term(t3, Seq::<u8>::empty());
    assert(s.skip(w1.len() + w2.len() as int) =~= w3);
    assert((w3 + Seq::<u8>::empty()) =~= w3);
}

#[verifier::rlimit(100)]
#[verifier::spinoff_prover]
proof fn lemma_decode4_of(t1: TermModel, t2: TermModel, t3: TermModel, t4: TermModel)
    requires
        t1.wf(),
        t2.wf(),
        t3.wf(),
        t4.wf(),
    ensures
        spec_decode4(
            spec_write_term(t1) + spec_write_term(t2) + spec_write_term(t3)
                + spec_write_term(t4),
        ) == Some((t1, t2, t3, t4)),
{
    let w1 = spec_write_term(t1);
    let w2 = spec_write_term(t2);
    let w3 = spec_write_term(t3);
    let w4 = spec_write_term(t4);
    let s = w1 + w2 + w3 + w4;
    assert(s =~= w1 + (w2 + w3 + w4));
    lemma_decode_write_term(t1, w2 + w3 + w4);
    assert(s.skip(w1.len() as int) =~= w2 + (w3 + w4));
    lemma_decode_write_term(t2, w3 + w4);
    assert(s.skip(w1.len() + w2.len() as int) =~= w3 + w4);
    lemma_decode_write_term(t3, w4);
    assert(s.skip(w1.len() + w2.len() + w3.len() as int) =~= w4 + Seq::<u8>::empty());
    lemma_decode_write_term(t4, Seq::<u8>::empty());
    assert((w4 + Seq::<u8>::empty()) =~= w4);
}

/// Law: for every applicable keyspace order, decoding a written key gives the
/// quad back.
pub proof fn lemma_quad_key_round_trip(e: QuadEncoding, q: QuadModel)
    requires
        quad_wf_for(e, q),
    ensures
        spec_decode_quad(e, spec_quad_key(e, q)) == Some(q),
{
    let ws = q.subject;
    let wp = q.predicate;
    let wo = q.object;
    let wg = q.graph_name;
    match e {
        QuadEncoding::Spog => { lemma_decode4_of(ws, wp, wo, wg); },
        QuadEncoding::Posg => { lemma_decode4_of(wp, wo, ws, wg); },
        QuadEncoding::Ospg => { lemma_decode4_of(wo, ws, wp, wg); },
        QuadEncoding::Gspo => { lemma_decode4_of(wg, ws, wp, wo); },
        QuadEncoding::Gpos => { lemma_decode4_of(wg, wp, wo, ws); },
        QuadEncoding::Gosp => { lemma_decode4_of(wg, wo, ws, wp); },
        QuadEncoding::Dspo => { lemma_decode3_of(ws, wp, wo); },
        QuadEncoding::Dpos => { lemma_decode3_of(wp, wo, ws); },
        QuadEncoding::Dosp => { lemma_decode3_of(wo, ws, wp); },
    }
}

/// Keys of one keyspace are injective in the quad: equal keys, equal quads.
pub proof fn lemma_quad_key_injective(e: QuadEncoding, q1: QuadModel, q2: QuadModel)
    requires
        quad_wf_for(e, q1),
        quad_wf_for(e, q2),
        spec_quad_key(e, q1) == spec_quad_key(e, q2),
    ensures
        q1 == q2,
{
    lemma_quad_key_round_trip(e, q1);
    lemma_quad_key_round_trip(e, q2);
}

/// One written term starts a four-term key exactly when it equals the key's
/// first term.
#[verifier::rlimit(100)]
#[verifier::spinoff_prover]
pub proof fn lemma_prefix1_of_key4(
    a: TermModel,
    u1: TermModel,
    u2: TermModel,
    u3: TermModel,
    u4: TermModel,
)
    requires
        a.wf(),
        u1.wf(),
        u2.wf(),
        u3.wf(),
        u4.wf(),
    ensures
        starts_with(
            spec_write_term(a),
            spec_write_term(u1) + spec_write_term(u2) + spec_write_term(u3)
                + spec_write_term(u4),
        ) <==> a == u1,
{
    let wa = spec_write_term(a);
    let w1 = spec_write_term(u1);
    let w2 = spec_write_term(u2);
    let w3 = spec_write_term(u3);
    let w4 = spec_write_term(u4);
    let key = w1 + w2 + w3 + w4;
    if starts_with(wa, key) {
        assert(wa + Seq::<u8>::empty() =~= wa);
        assert(key =~= w1 + (w2 + w3 + w4));
        lemma_write_term_peel(a, u1, Seq::<u8>::empty(), w2 + w3 + w4);
    }
    if a == u1 {
        assert(wa =~= key.subrange(0, wa.len() as int));
    }
}

/// Two written terms start a four-term key exactly when they equal the key's
/// first two terms.
#[verifier::rlimit(100)]
#[verifier::spinoff_prover]
pub proof fn lemma_prefix2_of_key4(
    a: TermModel,
    b: TermModel,
    u1: TermModel,
    u2: TermModel,
    u3: TermModel,
    u4: TermModel,
)
    requires
        a.wf(),
        b.wf(),
        u1.wf(),
        u2.wf(),
        u3.wf(),
        u4.wf(),
    ensures
        starts_with(
            spec_write_term(a) + spec_write_term(b),
            spec_write_term(u1) + spec_write_term(u2) + spec_write_term(u3)
                + spec_write_term(u4),
        ) <==> (a == u1 && b == u2),
{
    let wa = spec_write_term(a);
    let wb = spec_write_term(b);
    let w1 = spec_write_term(u1);
    let w2 = spec_write_term(u2);
    let w3 = spec_write_term(u3);
    let w4 = spec_write_term(u4);
    let key = w1 + w2 + w3 + w4;
    if starts_with(wa + wb, key) {
        assert(key =~= w1 + (w2 + w3 + w4));
        lemma_write_term_peel(a, u1, wb, w2 + w3 + w4);
        assert(wb + Seq::<u8>::empty() =~= wb);
        assert(w2 + w3 + w4 =~= w2 + (w3 + w4));
        lemma_write_term_peel(b, u2, Seq::<u8>::empty(), w3 + w4);
    }
    if a == u1 && b == u2 {
        assert(wa + wb =~= key.subrange(0, wa.len() + wb.len() as int));
    }
}

/// Three written terms start a four-term key exactly when they equal the
/// key's first three terms.
#[verifier::rlimit(100)]
#[verifier::spinoff_prover]
pub proof fn lemma_prefix3_of_key4(
    a: TermModel,
    b: TermModel,
    c: TermModel,
    u1: TermModel,
    u2: TermModel,
    u3: TermModel,
    u4: TermModel,
)
    requires
        a.wf(),
        b.wf(),
        c.wf(),
        u1.wf(),
        u2.wf(),
        u3.wf(),
        u4.wf(),
    ensures
        starts_with(
            spec_write_term(a) + spec_write_term(b) + spec_write_term(c),
            spec_write_term(u1) + spec_write_term(u2) + spec_write_term(u3)
                + spec_write_term(u4),
        ) <==> (a == u1 && b == u2 && c == u3),
{
    let wa = spec_write_term(a);
    let wb = spec_write_term(b);
    let wc = spec_write_term(c);
    let w1 = spec_write_term(u1);
    let w2 = spec_write_term(u2);
    let w3 = spec_write_term(u3);
    let w4 = spec_write_term(u4);
    let key = w1 + w2 + w3 + w4;
    if starts_with(wa + wb + wc, key) {
        assert(wa + wb + wc =~= wa + (wb + wc));
        assert(key =~= w1 + (w2 + w3 + w4));
        lemma_write_term_peel(a, u1, wb + wc, w2 + w3 + w4);
        assert(w2 + w3 + w4 =~= w2 + (w3 + w4));
        lemma_write_term_peel(b, u2, wc, w3 + w4);
        assert(wc + Seq::<u8>::empty() =~= wc);
        assert(w3 + w4 =~= w3 + (w4 + Seq::<u8>::empty()));
        lemma_write_term_peel(c, u3, Seq::<u8>::empty(), w4);
    }
    if a == u1 && b == u2 && c == u3 {
        assert(wa + wb + wc =~= key.subrange(0, wa.len() + wb.len() + wc.len() as int));
    }
}

/// Four written terms start a four-term key exactly when the two keys are the
/// same quadruple.
#[verifier::rlimit(100)]
#[verifier::spinoff_prover]
proof fn lemma_prefix4_of_key4_fwd(
    a: TermModel,
    b: TermModel,
    c: TermModel,
    d: TermModel,
    u1: TermModel,
    u2: TermModel,
    u3: TermModel,
    u4: TermModel,
)
    requires
        a.wf(),
        b.wf(),
        c.wf(),
        d.wf(),
        u1.wf(),
        u2.wf(),
        u3.wf(),
        u4.wf(),
        starts_with(
            spec_write_term(a) + spec_write_term(b) + spec_write_term(c) + spec_write_term(d),
            spec_write_term(u1) + spec_write_term(u2) + spec_write_term(u3)
                + spec_write_term(u4),
        ),
    ensures
        a == u1 && b == u2 && c == u3 && d == u4,
{
    let wa = spec_write_term(a);
    let wb = spec_write_term(b);
    let wc = spec_write_term(c);
    let wd = spec_write_term(d);
    let w1 = spec_write_term(u1);
    let w2 = spec_write_term(u2);
    let w3 = spec_write_term(u3);
    let w4 = spec_write_term(u4);
    assert(wa + wb + wc + wd =~= wa + (wb + wc + wd));
    assert(w1 + w2 + w3 + w4 =~= w1 + (w2 + w3 + w4));
    lemma_write_term_peel(a, u1, wb + wc + wd, w2 + w3 + w4);
    lemma_prefix3_of_key3(b, c, d, u2, u3, u4);
}

/// Four written terms start a four-term key exactly when the two keys are the
/// same quadruple.
#[verifier::rlimit(100)]
#[verifier::spinoff_prover]
pub proof fn lemma_prefix4_of_key4(
    a: TermModel,
    b: TermModel,
    c: TermModel,
    d: TermModel,
    u1: TermModel,
    u2: TermModel,
    u3: TermModel,
    u4: TermModel,
)
    requires
        a.wf(),
        b.wf(),
        c.wf(),
        d.wf(),
        u1.wf(),
        u2.wf(),
        u3.wf(),
        u4.wf(),
    ensures
        starts_with(
            spec_write_term(a) + spec_write_term(b) + spec_write_term(c) + spec_write_term(d),
            spec_write_term(u1) + spec_write_term(u2) + spec_write_term(u3)
                + spec_write_term(u4),
        ) <==> (a == u1 && b == u2 && c == u3 && d == u4),
{
    let p = spec_write_term(a) + spec_write_term(b) + spec_write_term(c) + spec_write_term(d);
    let key = spec_write_term(u1) + spec_write_term(u2) + spec_write_term(u3)
        + spec_write_term(u4);
    if starts_with(p, key) {
        lemma_prefix4_of_key4_fwd(a, b, c, d, u1, u2, u3, u4);
    }
    if a == u1 && b == u2 && c == u3 && d == u4 {
        assert(p =~= key.subrange(0, key.len() as int));
    }
}

/// One written term starts a three-term key exactly when it equals the key's
/// first term.
#[verifier::rlimit(100)]
#[verifier::spinoff_prover]
pub proof fn lemma_prefix1_of_key3(a: TermModel, u1: TermModel, u2: TermModel, u3: TermModel)
    requires
        a.wf(),
        u1.wf(),
        u2.wf(),
        u3.wf(),
    ensures
        starts_with(
            spec_write_term(a),
            spec_write_term(u1) + spec_write_term(u2) + spec_write_term(u3),
        ) <==> a == u1,
{
    let wa = spec_write_term(a);
    let w1 = spec_write_term(u1);
    let w2 = spec_write_term(u2);
    let w3 = spec_write_term(u3);
    let key = w1 + w2 + w3;
    if starts_with(wa, key) {
        assert(wa + Seq::<u8>::empty() =~= wa);
        assert(key =~= w1 + (w2 + w3));
        lemma_write_term_peel(a, u1, Seq::<u8>::empty(), w2 + w3);
    }
    if a == u1 {
        assert(wa =~= key.subrange(0, wa.len() as int));
    }
}

/// Two written terms start a three-term key exactly when they equal the
/// key's first two terms.
#[verifier::rlimit(100)]
#[verifier::spinoff_prover]
pub proof fn lemma_prefix2_of_key3(
    a: TermModel,
    b: TermModel,
    u1: TermModel,
    u2: TermModel,
    u3: TermModel,
)
    requires
        a.wf(),
        b.wf(),
        u1.wf(),
        u2.wf(),
        u3.wf(),
    ensures
        starts_with(
            spec_write_term(a) + spec_write_term(b),
            spec_write_term(u1) + spec_write_term(u2) + spec_write_term(u3),
        ) <==> (a == u1 && b == u2),
{
    let wa = spec_write_term(a);
    let wb = spec_write_term(b);
    let w1 = spec_write_term(u1);
    let w2 = spec_write_term(u2);
    let w3 = spec_write_term(u3);
    let key = w1 + w2 + w3;
    if starts_with(wa + wb, key) {
        assert(key =~= w1 + (w2 + w3));
        lemma_write_term_peel(a, u1, wb, w2 + w3);
        assert(wb + Seq::<u8>::empty() =~= wb);
        assert(w2 + w3 =~= w2 + (w3 + Seq::<u8>::empty()));
        lemma_write_term_peel(b, u2, Seq::<u8>::empty(), w3);
    }
    if a == u1 && b == u2 {
        assert(wa + wb =~= key.subrange(0, wa.len() + wb.len() as int));
    }
}

/// Three written terms start a three-term key exactly when the keys are the
/// same triple.
#[verifier::rlimit(100)]
#[verifier::spinoff_prover]
pub proof fn lemma_prefix3_of_key3(
    a: TermModel,
    b: TermModel,
    c: TermModel,
    u1: TermModel,
    u2: TermModel,
    u3: TermModel,
)
    requires
        a.wf(),
        b.wf(),
        c.wf(),
        u1.wf(),
        u2.wf(),
        u3.wf(),
    ensures
        starts_with(
            spec_write_term(a) + spec_write_term(b) + spec_write_term(c),
            spec_write_term(u1) + spec_write_term(u2) + spec_write_term(u3),
        ) <==> (a == u1 && b == u2 && c == u3),
{
    let wa = spec_write_term(a);
    let wb = spec_write_term(b);
    let wc = spec_write_term(c);
    let w1 = spec_write_term(u1);
    let w2 = spec_write_term(u2);
    let w3 = spec_write_term(u3);
    let key = w1 + w2 + w3;
    if starts_with(wa + wb + wc, key) {
        assert(wa + wb + wc =~= wa + (wb + wc));
        assert(key =~= w1 + (w2 + w3));
        lemma_write_term_peel(a, u1, wb + wc, w2 + w3);
        assert(wb + wc =~= wb + (wc + Seq::<u8>::empty()));
        assert(w2 + w3 =~= w2 + (w3 + Seq::<u8>::empty()));
        lemma_write_term_peel(b, u2, wc + Seq::<u8>::empty(), w3 + Seq::<u8>::empty());
        lemma_write_term_peel(c, u3, Seq::<u8>::empty(), Seq::<u8>::empty());
    }
    if a == u1 && b == u2 && c == u3 {
        assert(wa + wb + wc =~= key.subrange(0, wa.len() + wb.len() + wc.len() as int));
    }
}

/// The big-endian serialization of the version tag, so that numeric order
/// matches byte-lexicographic order.
pub open spec fn spec_u64_be_bytes(x: u64) -> Seq<u8> {
    vstd::bytes::spec_u64_to_le_bytes(x).reverse()
}

/// Reads a version tag back from its big-endian serialization.
pub open spec fn spec_u64_from_be_bytes(s: Seq<u8>) -> u64 {
    vstd::bytes::spec_u64_from_le_bytes(s.reverse())
}

pub proof fn lemma_u64_be_bytes(x: u64)
    ensures
        spec_u64_be_bytes(x).len() == 8,
        spec_u64_from_be_bytes(spec_u64_be_bytes(x)) == x,
{
    vstd::bytes::lemma_auto_spec_u64_to_from_le_bytes();
    assert(vstd::bytes::spec_u64_to_le_bytes(x).reverse().reverse() =~= vstd::bytes::spec_u64_to_le_bytes(x));
}

/// The 8 bytes of `x`, most significant first.
pub fn u64_be_bytes(x: u64) -> (r: Vec<u8>)
    ensures
        r@ == spec_u64_be_bytes(x),
        r@.len() == 8,
{
    proof {
        vstd::bytes::lemma_auto_spec_u64_to_from_le_bytes();
    }
    let le = vstd::bytes::u64_to_le_bytes(x);
    let mut r: Vec<u8> = Vec::new();
    let mut i: usize = 8;
    while i > 0
        invariant
            le@ == vstd::bytes::spec_u64_to_le_bytes(x),
            le@.len() == 8,
            i <= 8,
            r@.len() == 8 - i,
            forall|j: int| 0 <= j < r@.len() ==> r@[j] == le@[7 - j],
        decreases i,
    {
        i = i - 1;
        let b = le[i];
        r.push(b);
    }
    proof {
        assert(r@ =~= spec_u64_be_bytes(x));
    }
    r
}

/// Reads back the number stored in 8 big-endian bytes.
pub fn u64_from_be_bytes(bytes: &[u8]) -> (r: u64)
    requires
        bytes@.len() == 8,
    ensures
        r == spec_u64_from_be_bytes(bytes@),
{
    let mut le: Vec<u8> = Vec::new();
    let mut i: usize = 8;
    while i > 0
        invariant
            bytes@.len() == 8,
            i <= 8,
            le@.len() == 8 - i,
            forall|j: int| 0 <= j < le@.len() ==> le@[j] == bytes@[7 - j],
        decreases i,
    {
        i = i - 1;
        let b = bytes[i];
        le.push(b);
    }
    proof {
        assert(le@ =~= bytes@.reverse());
    }
    vstd::bytes::u64_from_le_bytes(le.as_slice())
}


/// Law: the term encoding is injective: equal written forms, equal terms.
pub proof fn lemma_write_term_injective(t1: TermModel, t2: TermModel)
    requires
        t1.wf(),
        t2.wf(),
        spec_write_term(t1) == spec_write_term(t2),
    ensures
        t1 == t2,
{
    assert(spec_write_term(t1) + Seq::<u8>::empty() =~= spec_write_term(t1));
    assert(spec_write_term(t2) + Seq::<u8>::empty() =~= spec_write_term(t2));
    assert(starts_with(spec_write_term(t1) + Seq::<u8>::empty(), spec_write_term(t2) + Seq::<u8>::empty())) by {
        assert(spec_write_term(t1) =~= spec_write_term(t2).subrange(0, spec_write_term(t1).len() as int));
    }
    lemma_write_term_peel(t1, t2, Seq::<u8>::empty(), Seq::<u8>::empty());
}

} // verus!
