//! Encoded RDF terms and quads, and the 128-bit string hash used by the
//! interner.
//!
//! A term holds its string payloads either inline (at most
//! [`INLINE_STRING_MAX_SIZE`](crate::small_string::INLINE_STRING_MAX_SIZE)
//! bytes) or as the 128-bit content hash of the full string, which is then
//! stored once in the `id2str` keyspace.

use vstd::prelude::*;
use vstd::bytes::{spec_u128_to_le_bytes, spec_u128_from_le_bytes, u128_to_le_bytes,
    u128_from_le_bytes, lemma_auto_spec_u128_to_from_le_bytes};
use vstd::string::StringSliceAdditionalSpecFns;
use vstd::utf8::encode_utf8;
use crate::small_string::SmallString;

verus! {

/// Multiplier of the 128-bit FNV-1a content hash.
pub const STR_HASH_PRIME: u128 = 0x0000000001000000000000000000013B;

/// Starting state of the 128-bit FNV-1a content hash.
pub const STR_HASH_BASIS: u128 = 0x6c62272e07bb014262b821756295c58d;

/// One FNV-1a step: fold the next byte into the hash state.
pub open spec fn spec_str_hash_update(h: u128, b: u8) -> u128 {
    (h ^ (b as u128)).wrapping_mul(STR_HASH_PRIME)
}

/// The 128-bit FNV-1a hash of a byte string.
pub closed spec fn spec_str_hash(bytes: Seq<u8>) -> u128
    decreases bytes.len(),
{
    if bytes.len() == 0 {
        STR_HASH_BASIS
    } else {
        spec_str_hash_update(spec_str_hash(bytes.drop_last()), bytes.last())
    }
}

/// The big-endian byte serialization of a 128-bit hash; lexicographic
/// comparison of these bytes matches numeric comparison of the hashes.
pub open spec fn spec_u128_be_bytes(x: u128) -> Seq<u8> {
    spec_u128_to_le_bytes(x).reverse()
}

/// Reads a 128-bit hash back from its big-endian serialization.
pub open spec fn spec_u128_from_be_bytes(s: Seq<u8>) -> u128 {
    spec_u128_from_le_bytes(s.reverse())
}

pub proof fn lemma_u128_be_bytes(x: u128)
    ensures
        spec_u128_be_bytes(x).len() == 16,
        spec_u128_from_be_bytes(spec_u128_be_bytes(x)) == x,
{
    lemma_auto_spec_u128_to_from_le_bytes();
    assert(spec_u128_to_le_bytes(x).reverse().reverse() =~= spec_u128_to_le_bytes(x));
}

/// A 128-bit content hash standing for a string that is too wide to inline;
/// the interner maps it back to the full string.
#[derive(Clone, Copy, Debug, PartialEq, Eq, Hash)]
pub struct StrHash {
    pub hash: u128,
}

impl StrHash {
    /// Hashes the UTF-8 bytes of `value`.
    pub fn new(value: &str) -> (r: StrHash)
        ensures
            r.hash == spec_str_hash(value.spec_bytes()),
    {
        let bytes = value.as_bytes();
        let mut h: u128 = STR_HASH_BASIS;
        let mut i: usize = 0;
        while i < bytes.len()
            invariant
                i <= bytes@.len(),
                bytes@ == value.spec_bytes(),
                h == spec_str_hash(bytes@.take(i as int)),
            decreases bytes@.len() - i,
        {
            proof {
                assert(bytes@.take(i + 1).drop_last() =~= bytes@.take(i as int));
                assert(bytes@.take(i + 1).last() == bytes@[i as int]);
            }
            h = (h ^ (bytes[i] as u128)).wrapping_mul(STR_HASH_PRIME);
            i = i + 1;
        }
        proof {
            assert(bytes@.take(bytes@.len() as int) =~= bytes@);
        }
        StrHash { hash: h }
    }

    pub fn from_hash(hash: u128) -> (r: StrHash)
        ensures
            r.hash == hash,
    {
        StrHash { hash }
    }

    /// The 16 bytes used as this hash's key in the interner keyspace.
    pub fn to_be_bytes(&self) -> (r: Vec<u8>)
        ensures
            r@ == spec_u128_be_bytes(self.hash),
            r@.len() == 16,
    {
        proof {
            lemma_auto_spec_u128_to_from_le_bytes();
        }
        let le = u128_to_le_bytes(self.hash);
        let mut r: Vec<u8> = Vec::new();
        let mut i: usize = 16;
        while i > 0
            invariant
                le@ == spec_u128_to_le_bytes(self.hash),
                le@.len() == 16,
                i <= 16,
                r@.len() == 16 - i,
                forall|j: int| 0 <= j < r@.len() ==> r@[j] == le@[15 - j],
            decreases i,
        {
            i = i - 1;
            let b = le[i];
            r.push(b);
        }
        proof {
            assert(r@ =~= spec_u128_be_bytes(self.hash));
        }
        r
    }

    /// Reads a hash back from its 16-byte big-endian serialization.
    pub fn from_be_bytes(bytes: &[u8]) -> (r: StrHash)
        requires
            bytes@.len() == 16,
        ensures
            r.hash == spec_u128_from_be_bytes(bytes@),
    {
        let mut le: Vec<u8> = Vec::new();
        let mut i: usize = 16;
        while i > 0
            invariant
                bytes@.len() == 16,
                i <= 16,
                le@.len() == 16 - i,
                forall|j: int| 0 <= j < le@.len() ==> le@[j] == bytes@[15 - j],
            decreases i,
        {
            i = i - 1;
            let b = bytes[i];
            le.push(b);
        }
        proof {
            assert(le@ =~= bytes@.reverse());
        }
        let x = u128_from_le_bytes(le.as_slice());
        StrHash { hash: x }
    }
}

/// An encoded RDF term: the unit stored at each position of an index key.
///
/// `String`-typed literals carry no datatype because the plain-string
/// datatype is implied; language-tagged literals carry no datatype because
/// the language-string datatype is implied.
#[derive(Clone, Debug, PartialEq, Eq, Hash)]
pub enum EncodedTerm {
    /// The marker standing for the unnamed graph, valid only in the
    /// graph-name position.
    DefaultGraph,
    /// A named node whose IRI is interned under `iri_id`.
    NamedNode { iri_id: StrHash },
    /// A named node whose IRI fits the inline budget.
    SmallNamedNode { iri: SmallString },
    /// A blank node whose identifier is interned under `id_id`.
    BigBlankNode { id_id: StrHash },
    /// A blank node whose identifier fits the inline budget.
    SmallBlankNode { id: SmallString },
    /// A plain string literal, inline.
    SmallStringLiteral { value: SmallString },
    /// A plain string literal, interned.
    BigStringLiteral { value_id: StrHash },
    /// A language-tagged literal, both parts inline.
    SmallSmallLangStringLiteral { value: SmallString, language: SmallString },
    /// A language-tagged literal: inline value, interned language tag.
    SmallBigLangStringLiteral { value: SmallString, language_id: StrHash },
    /// A language-tagged literal: interned value, inline language tag.
    BigSmallLangStringLiteral { value_id: StrHash, language: SmallString },
    /// A language-tagged literal, both parts interned.
    BigBigLangStringLiteral { value_id: StrHash, language_id: StrHash },
    /// A typed literal with an inline lexical form.
    SmallTypedLiteral { value: SmallString, datatype_id: StrHash },
    /// A typed literal with an interned lexical form.
    BigTypedLiteral { value_id: StrHash, datatype_id: StrHash },
}

/// The mathematical shape of an encoded term: inline payloads as byte
/// sequences, interned payloads as 128-bit hashes.
pub enum TermModel {
    DefaultGraph,
    NamedNode { iri_id: u128 },
    SmallNamedNode { iri: Seq<u8> },
    BigBlankNode { id_id: u128 },
    SmallBlankNode { id: Seq<u8> },
    SmallStringLiteral { value: Seq<u8> },
    BigStringLiteral { value_id: u128 },
    SmallSmallLangStringLiteral { value: Seq<u8>, language: Seq<u8> },
    SmallBigLangStringLiteral { value: Seq<u8>, language_id: u128 },
    BigSmallLangStringLiteral { value_id: u128, language: Seq<u8> },
    BigBigLangStringLiteral { value_id: u128, language_id: u128 },
    SmallTypedLiteral { value: Seq<u8>, datatype_id: u128 },
    BigTypedLiteral { value_id: u128, datatype_id: u128 },
}

impl TermModel {
    /// Inline payloads respect the inline budget.
    pub open spec fn wf(self) -> bool {
        match self {
            TermModel::DefaultGraph => true,
            TermModel::NamedNode { .. } => true,
            TermModel::SmallNamedNode { iri } => iri.len() <= 15,
            TermModel::BigBlankNode { .. } => true,
            TermModel::SmallBlankNode { id } => id.len() <= 15,
            TermModel::SmallStringLiteral { value } => value.len() <= 15,
            TermModel::BigStringLiteral { .. } => true,
            TermModel::SmallSmallLangStringLiteral { value, language } => value.len() <= 15
                && language.len() <= 15,
            TermModel::SmallBigLangStringLiteral { value, .. } => value.len() <= 15,
            TermModel::BigSmallLangStringLiteral { language, .. } => language.len() <= 15,
            TermModel::BigBigLangStringLiteral { .. } => true,
            TermModel::SmallTypedLiteral { value, .. } => value.len() <= 15,
            TermModel::BigTypedLiteral { .. } => true,
        }
    }

    pub open spec fn is_default_graph(self) -> bool {
        self is DefaultGraph
    }
}

impl View for EncodedTerm {
    type V = TermModel;

    open spec fn view(&self) -> TermModel {
        match self {
            EncodedTerm::DefaultGraph => TermModel::DefaultGraph,
            EncodedTerm::NamedNode { iri_id } => TermModel::NamedNode { iri_id: iri_id.hash },
            EncodedTerm::SmallNamedNode { iri } => TermModel::SmallNamedNode { iri: iri@ },
            EncodedTerm::BigBlankNode { id_id } => TermModel::BigBlankNode { id_id: id_id.hash },
            EncodedTerm::SmallBlankNode { id } => TermModel::SmallBlankNode { id: id@ },
            EncodedTerm::SmallStringLiteral { value } => TermModel::SmallStringLiteral {
                value: value@,
            },
            EncodedTerm::BigStringLiteral { value_id } => TermModel::BigStringLiteral {
                value_id: value_id.hash,
            },
            EncodedTerm::SmallSmallLangStringLiteral { value, language } =>
                TermModel::SmallSmallLangStringLiteral { value: value@, language: language@ },
            EncodedTerm::SmallBigLangStringLiteral { value, language_id } =>
                TermModel::SmallBigLangStringLiteral {
                    value: value@,
                    language_id: language_id.hash,
                },
            EncodedTerm::BigSmallLangStringLiteral { value_id, language } =>
                TermModel::BigSmallLangStringLiteral {
                    value_id: value_id.hash,
                    language: language@,
                },
            EncodedTerm::BigBigLangStringLiteral { value_id, language_id } =>
                TermModel::BigBigLangStringLiteral {
                    value_id: value_id.hash,
                    language_id: language_id.hash,
                },
            EncodedTerm::SmallTypedLiteral { value, datatype_id } =>
                TermModel::SmallTypedLiteral { value: value@, datatype_id: datatype_id.hash },
            EncodedTerm::BigTypedLiteral { value_id, datatype_id } =>
                TermModel::BigTypedLiteral {
                    value_id: value_id.hash,
                    datatype_id: datatype_id.hash,
                },
        }
    }
}

impl EncodedTerm {
    pub open spec fn wf(&self) -> bool {
        self@.wf()
    }

    /// Whether this term is the default-graph marker.
    pub fn is_default_graph(&self) -> (r: bool)
        ensures
            r == self@.is_default_graph(),
    {
        match self {
            EncodedTerm::DefaultGraph => true,
            _ => false,
        }
    }
}

/// An encoded quad; `graph_name` may be the default-graph marker.
#[derive(Clone, Debug, PartialEq, Eq, Hash)]
pub struct EncodedQuad {
    pub subject: EncodedTerm,
    pub predicate: EncodedTerm,
    pub object: EncodedTerm,
    pub graph_name: EncodedTerm,
}

/// The mathematical shape of an encoded quad.
pub struct QuadModel {
    pub subject: TermModel,
    pub predicate: TermModel,
    pub object: TermModel,
    pub graph_name: TermModel,
}

impl QuadModel {
    pub open spec fn wf(self) -> bool {
        self.subject.wf() && self.predicate.wf() && self.object.wf() && self.graph_name.wf()
    }

    /// A well-formed quad of the default graph.
    pub open spec fn wf_default(self) -> bool {
        self.wf() && self.graph_name is DefaultGraph
    }

    /// A well-formed quad of some named graph.
    pub open spec fn wf_named(self) -> bool {
        self.wf() && !(self.graph_name is DefaultGraph)
    }
}

impl View for EncodedQuad {
    type V = QuadModel;

    open spec fn view(&self) -> QuadModel {
        QuadModel {
            subject: self.subject@,
            predicate: self.predicate@,
            object: self.object@,
            graph_name: self.graph_name@,
        }
    }
}

impl EncodedQuad {
    pub open spec fn wf(&self) -> bool {
        self@.wf()
    }

    pub fn new(
        subject: EncodedTerm,
        predicate: EncodedTerm,
        object: EncodedTerm,
        graph_name: EncodedTerm,
    ) -> (r: EncodedQuad)
        ensures
            r@ == (QuadModel {
                subject: subject@,
                predicate: predicate@,
                object: object@,
                graph_name: graph_name@,
            }),
    {
        EncodedQuad { subject, predicate, object, graph_name }
    }
}


/// Read access to the string interner, provided alike by the storage façade
/// and by a transaction handle.
pub trait StrLookup: Sized {
    type Error;

    /// The interner's contents as this handle sees them: 16-byte hash keys to
    /// UTF-8 values.
    spec fn str_table(&self) -> Map<Seq<u8>, Seq<u8>>;

    /// The interned string under `key`, if any.
    fn get_str(&self, key: &StrHash) -> (r: Result<Option<String>, Self::Error>)
        ensures
            r matches Ok(v) ==> ((v is Some <==> self.str_table().dom().contains(
                spec_u128_be_bytes(key.hash),
            )) && (v matches Some(s) ==> encode_utf8(s@) == self.str_table()[spec_u128_be_bytes(
                key.hash,
            )]));

    /// Whether the interner holds a string under `key`.
    fn contains_str(&self, key: &StrHash) -> (r: Result<bool, Self::Error>)
        ensures
            r matches Ok(b) ==> b == self.str_table().dom().contains(spec_u128_be_bytes(
                key.hash,
            ));
}

/// Write access to the string interner, on top of [`StrLookup`].
pub trait StrContainer: StrLookup {
    /// Interns `value` under `key`; reports whether the key was new.
    fn insert_str(&mut self, key: &StrHash, value: &str) -> (r: Result<bool, Self::Error>)
        ensures
            r matches Ok(is_new) ==> (final(self).str_table() == old(self).str_table().insert(
                spec_u128_be_bytes(key.hash),
                encode_utf8(value@),
            ) && is_new == !old(self).str_table().dom().contains(spec_u128_be_bytes(key.hash)));
}

} // verus!
