//! The storage façade: eleven sled keyspaces kept in lockstep.
//!
//! Quads of the default graph live in the three `D*` keyspaces, named-graph
//! quads in the six `g`-bearing ones; the `graphs` keyspace is the registry
//! of named graphs and `id2str` the string interner.  Membership of a quad is
//! decided by its primary keyspace: `dspo` for the default graph, `spog` for
//! named graphs; the other orders are redundant mirrors.

use vstd::prelude::*;
use vstd::utf8::encode_utf8;
use crate::backend::{db_entries, db_flush, db_get, db_insert, open_db, open_temporary_db,
    open_tree, tree_clear, tree_contains_key, tree_entries, tree_flush, tree_get, tree_insert,
    tree_remove, tree_scan_prefix};
use crate::binary_encoder::{spec_quad_key, spec_write_term, spec_u64_be_bytes,
    spec_u64_from_be_bytes, spec_decode_quad, spec_decode_term, starts_with, quad_wf_for,
    u64_be_bytes, u64_from_be_bytes, write_term, write_spog_quad, write_posg_quad,
    write_ospg_quad, write_gspo_quad, write_gpos_quad, write_gosp_quad, write_spo_quad,
    write_pos_quad, write_osp_quad, encode_term, encode_term_pair, encode_term_triple, lex_lt,
    encode_term_quad, QuadEncoding, LATEST_STORAGE_VERSION,
    WRITTEN_TERM_MAX_SIZE};
use crate::numeric_encoder::{EncodedQuad, EncodedTerm, QuadModel, StrContainer, StrHash,
    StrLookup, TermModel, spec_u128_be_bytes};
use crate::binary_encoder::lemma_u64_be_bytes;

verus! {

/// The reserved key of the version tag in the default keyspace: the UTF-8
/// bytes of `oxversion`.
pub open spec fn spec_version_key() -> Seq<u8> {
    seq![111u8, 120u8, 118u8, 101u8, 114u8, 115u8, 105u8, 111u8, 110u8]
}

/// The version-tag key as a buffer.
fn version_key() -> (r: Vec<u8>)
    ensures
        r@ == spec_version_key(),
{
    let mut v: Vec<u8> = Vec::new();
    v.push(111u8);
    v.push(120u8);
    v.push(118u8);
    v.push(101u8);
    v.push(114u8);
    v.push(115u8);
    v.push(105u8);
    v.push(111u8);
    v.push(110u8);
    proof {
        assert(v@ =~= spec_version_key());
    }
    v
}

/// The mathematical state of a store: the entries of the default keyspace
/// (which holds the version tag) and of the eleven named keyspaces.
#[verifier::ext_equal]
pub struct StorageModel {
    pub default: Map<Seq<u8>, Seq<u8>>,
    pub id2str: Map<Seq<u8>, Seq<u8>>,
    pub spog: Map<Seq<u8>, Seq<u8>>,
    pub posg: Map<Seq<u8>, Seq<u8>>,
    pub ospg: Map<Seq<u8>, Seq<u8>>,
    pub gspo: Map<Seq<u8>, Seq<u8>>,
    pub gpos: Map<Seq<u8>, Seq<u8>>,
    pub gosp: Map<Seq<u8>, Seq<u8>>,
    pub dspo: Map<Seq<u8>, Seq<u8>>,
    pub dpos: Map<Seq<u8>, Seq<u8>>,
    pub dosp: Map<Seq<u8>, Seq<u8>>,
    pub graphs: Map<Seq<u8>, Seq<u8>>,
}

/// Every entry of `m1` is an entry of `m0`, unchanged: what an interrupted
/// truncation can leave behind.
pub open spec fn map_shrunk(m1: Map<Seq<u8>, Seq<u8>>, m0: Map<Seq<u8>, Seq<u8>>) -> bool {
    forall|k: Seq<u8>| #[trigger] m1.dom().contains(k) ==> m0.dom().contains(k) && m1[k] == m0[k]
}

/// One keyspace holds only well-formed keys of its own order, each mapped to
/// the empty value.
pub open spec fn quad_tree_ok(e: QuadEncoding, m: Map<Seq<u8>, Seq<u8>>) -> bool {
    &&& m.dom().finite()
    &&& forall|k: Seq<u8>| #[trigger] m.dom().contains(k) ==> (exists|q: QuadModel|
        quad_wf_for(e, q) && k == #[trigger] spec_quad_key(e, q)) && m[k] == Seq::<u8>::empty()
}

impl StorageModel {
    /// The default graph holds `q` (membership is decided by `dspo`).
    pub open spec fn contains_dquad(self, q: QuadModel) -> bool {
        self.dspo.dom().contains(spec_quad_key(QuadEncoding::Dspo, q))
    }

    /// Some named graph holds `q` (membership is decided by `spog`).
    pub open spec fn contains_nquad(self, q: QuadModel) -> bool {
        self.spog.dom().contains(spec_quad_key(QuadEncoding::Spog, q))
    }

    /// The store holds `q`, in its graph's primary keyspace.
    pub open spec fn contains_quad(self, q: QuadModel) -> bool {
        if q.graph_name is DefaultGraph {
            self.contains_dquad(q)
        } else {
            self.contains_nquad(q)
        }
    }

    /// The registry lists the graph written as `g`.
    pub open spec fn contains_graph(self, g: TermModel) -> bool {
        self.graphs.dom().contains(spec_write_term(g))
    }

    /// The six named-graph keyspaces agree on every quad.
    pub open spec fn named_orders_agree(self) -> bool {
        forall|q: QuadModel|
            q.wf_named() ==> {
                let inn = self.spog.dom().contains(#[trigger] spec_quad_key(
                    QuadEncoding::Spog,
                    q,
                ));
                &&& self.posg.dom().contains(spec_quad_key(QuadEncoding::Posg, q)) == inn
                &&& self.ospg.dom().contains(spec_quad_key(QuadEncoding::Ospg, q)) == inn
                &&& self.gspo.dom().contains(spec_quad_key(QuadEncoding::Gspo, q)) == inn
                &&& self.gpos.dom().contains(spec_quad_key(QuadEncoding::Gpos, q)) == inn
                &&& self.gosp.dom().contains(spec_quad_key(QuadEncoding::Gosp, q)) == inn
            }
    }

    /// The three default-graph keyspaces agree on every quad.
    pub open spec fn default_orders_agree(self) -> bool {
        forall|q: QuadModel|
            q.wf_default() ==> {
                let inn = self.dspo.dom().contains(#[trigger] spec_quad_key(
                    QuadEncoding::Dspo,
                    q,
                ));
                &&& self.dpos.dom().contains(spec_quad_key(QuadEncoding::Dpos, q)) == inn
                &&& self.dosp.dom().contains(spec_quad_key(QuadEncoding::Dosp, q)) == inn
            }
    }

    /// Every stored named-graph quad has its graph in the registry.
    pub open spec fn registry_complete(self) -> bool {
        forall|q: QuadModel|
            q.wf_named() && self.spog.dom().contains(#[trigger] spec_quad_key(
                QuadEncoding::Spog,
                q,
            )) ==> self.graphs.dom().contains(spec_write_term(q.graph_name))
    }

    /// The registry holds only written well-formed terms, each mapped to the
    /// empty value.
    pub open spec fn graphs_ok(self) -> bool {
        &&& self.graphs.dom().finite()
        &&& forall|k: Seq<u8>| #[trigger] self.graphs.dom().contains(k) ==> (exists|
            t: TermModel,
        | t.wf() && k == #[trigger] spec_write_term(t)) && self.graphs[k] == Seq::<u8>::empty()
    }

    /// The cross-keyspace invariant that every mutation preserves.
    pub open spec fn inv(self) -> bool {
        &&& self.default.dom().finite()
        &&& self.id2str.dom().finite()
        &&& quad_tree_ok(QuadEncoding::Spog, self.spog)
        &&& quad_tree_ok(QuadEncoding::Posg, self.posg)
        &&& quad_tree_ok(QuadEncoding::Ospg, self.ospg)
        &&& quad_tree_ok(QuadEncoding::Gspo, self.gspo)
        &&& quad_tree_ok(QuadEncoding::Gpos, self.gpos)
        &&& quad_tree_ok(QuadEncoding::Gosp, self.gosp)
        &&& quad_tree_ok(QuadEncoding::Dspo, self.dspo)
        &&& quad_tree_ok(QuadEncoding::Dpos, self.dpos)
        &&& quad_tree_ok(QuadEncoding::Dosp, self.dosp)
        &&& self.graphs_ok()
        &&& self.named_orders_agree()
        &&& self.default_orders_agree()
        &&& self.registry_complete()
    }

    /// The store after inserting `q`: always (re)writes the primary key; the
    /// mirrors and, for named graphs, the registry change only when the quad
    /// was new.
    pub open spec fn with_insert(self, q: QuadModel) -> StorageModel {
        let empty_v = Seq::<u8>::empty();
        if q.graph_name is DefaultGraph {
            if self.contains_dquad(q) {
                StorageModel {
                    dspo: self.dspo.insert(spec_quad_key(QuadEncoding::Dspo, q), empty_v),
                    ..self
                }
            } else {
                StorageModel {
                    dspo: self.dspo.insert(spec_quad_key(QuadEncoding::Dspo, q), empty_v),
                    dpos: self.dpos.insert(spec_quad_key(QuadEncoding::Dpos, q), empty_v),
                    dosp: self.dosp.insert(spec_quad_key(QuadEncoding::Dosp, q), empty_v),
                    ..self
                }
            }
        } else {
            if self.contains_nquad(q) {
                StorageModel {
                    spog: self.spog.insert(spec_quad_key(QuadEncoding::Spog, q), empty_v),
                    ..self
                }
            } else {
                StorageModel {
                    spog: self.spog.insert(spec_quad_key(QuadEncoding::Spog, q), empty_v),
                    posg: self.posg.insert(spec_quad_key(QuadEncoding::Posg, q), empty_v),
                    ospg: self.ospg.insert(spec_quad_key(QuadEncoding::Ospg, q), empty_v),
                    gspo: self.gspo.insert(spec_quad_key(QuadEncoding::Gspo, q), empty_v),
                    gpos: self.gpos.insert(spec_quad_key(QuadEncoding::Gpos, q), empty_v),
                    gosp: self.gosp.insert(spec_quad_key(QuadEncoding::Gosp, q), empty_v),
                    graphs: self.graphs.insert(spec_write_term(q.graph_name), empty_v),
                    ..self
                }
            }
        }
    }

    /// The store after removing `q`: always removes the primary key; the
    /// mirrors change only when the quad was present.  The registry keeps the
    /// graph.
    pub open spec fn with_remove(self, q: QuadModel) -> StorageModel {
        if q.graph_name is DefaultGraph {
            if self.contains_dquad(q) {
                StorageModel {
                    dspo: self.dspo.remove(spec_quad_key(QuadEncoding::Dspo, q)),
                    dpos: self.dpos.remove(spec_quad_key(QuadEncoding::Dpos, q)),
                    dosp: self.dosp.remove(spec_quad_key(QuadEncoding::Dosp, q)),
                    ..self
                }
            } else {
                StorageModel {
                    dspo: self.dspo.remove(spec_quad_key(QuadEncoding::Dspo, q)),
                    ..self
                }
            }
        } else {
            if self.contains_nquad(q) {
                StorageModel {
                    spog: self.spog.remove(spec_quad_key(QuadEncoding::Spog, q)),
                    posg: self.posg.remove(spec_quad_key(QuadEncoding::Posg, q)),
                    ospg: self.ospg.remove(spec_quad_key(QuadEncoding::Ospg, q)),
                    gspo: self.gspo.remove(spec_quad_key(QuadEncoding::Gspo, q)),
                    gpos: self.gpos.remove(spec_quad_key(QuadEncoding::Gpos, q)),
                    gosp: self.gosp.remove(spec_quad_key(QuadEncoding::Gosp, q)),
                    ..self
                }
            } else {
                StorageModel {
                    spog: self.spog.remove(spec_quad_key(QuadEncoding::Spog, q)),
                    ..self
                }
            }
        }
    }

    /// What an interrupted insert of `q` can leave behind: each keyspace the
    /// insert touches holds its old entries or its old entries plus `q`'s
    /// key; everything else is unchanged.
    pub open spec fn insert_partial(self, m1: StorageModel, q: QuadModel) -> bool {
        let e = Seq::<u8>::empty();
        &&& m1.default == self.default
        &&& m1.id2str == self.id2str
        &&& (if q.graph_name is DefaultGraph {
            &&& (m1.dspo == self.dspo || m1.dspo == self.dspo.insert(
                spec_quad_key(QuadEncoding::Dspo, q),
                e,
            ))
            &&& (m1.dpos == self.dpos || m1.dpos == self.dpos.insert(
                spec_quad_key(QuadEncoding::Dpos, q),
                e,
            ))
            &&& (m1.dosp == self.dosp || m1.dosp == self.dosp.insert(
                spec_quad_key(QuadEncoding::Dosp, q),
                e,
            ))
            &&& m1.spog == self.spog
            &&& m1.posg == self.posg
            &&& m1.ospg == self.ospg
            &&& m1.gspo == self.gspo
            &&& m1.gpos == self.gpos
            &&& m1.gosp == self.gosp
            &&& m1.graphs == self.graphs
        } else {
            &&& (m1.spog == self.spog || m1.spog == self.spog.insert(
                spec_quad_key(QuadEncoding::Spog, q),
                e,
            ))
            &&& (m1.posg == self.posg || m1.posg == self.posg.insert(
                spec_quad_key(QuadEncoding::Posg, q),
                e,
            ))
            &&& (m1.ospg == self.ospg || m1.ospg == self.ospg.insert(
                spec_quad_key(QuadEncoding::Ospg, q),
                e,
            ))
            &&& (m1.gspo == self.gspo || m1.gspo == self.gspo.insert(
                spec_quad_key(QuadEncoding::Gspo, q),
                e,
            ))
            &&& (m1.gpos == self.gpos || m1.gpos == self.gpos.insert(
                spec_quad_key(QuadEncoding::Gpos, q),
                e,
            ))
            &&& (m1.gosp == self.gosp || m1.gosp == self.gosp.insert(
                spec_quad_key(QuadEncoding::Gosp, q),
                e,
            ))
            &&& (m1.graphs == self.graphs || m1.graphs == self.graphs.insert(
                spec_write_term(q.graph_name),
                e,
            ))
            &&& m1.dspo == self.dspo
            &&& m1.dpos == self.dpos
            &&& m1.dosp == self.dosp
        })
    }

    /// What an interrupted removal of `q` can leave behind: each keyspace the
    /// removal touches holds its old entries or its old entries without
    /// `q`'s key; everything else is unchanged.
    pub open spec fn remove_partial(self, m1: StorageModel, q: QuadModel) -> bool {
        &&& m1.default == self.default
        &&& m1.id2str == self.id2str
        &&& m1.graphs == self.graphs
        &&& (if q.graph_name is DefaultGraph {
            &&& (m1.dspo == self.dspo || m1.dspo == self.dspo.remove(
                spec_quad_key(QuadEncoding::Dspo, q),
            ))
            &&& (m1.dpos == self.dpos || m1.dpos == self.dpos.remove(
                spec_quad_key(QuadEncoding::Dpos, q),
            ))
            &&& (m1.dosp == self.dosp || m1.dosp == self.dosp.remove(
                spec_quad_key(QuadEncoding::Dosp, q),
            ))
            &&& m1.spog == self.spog
            &&& m1.posg == self.posg
            &&& m1.ospg == self.ospg
            &&& m1.gspo == self.gspo
            &&& m1.gpos == self.gpos
            &&& m1.gosp == self.gosp
        } else {
            &&& (m1.spog == self.spog || m1.spog == self.spog.remove(
                spec_quad_key(QuadEncoding::Spog, q),
            ))
            &&& (m1.posg == self.posg || m1.posg == self.posg.remove(
                spec_quad_key(QuadEncoding::Posg, q),
            ))
            &&& (m1.ospg == self.ospg || m1.ospg == self.ospg.remove(
                spec_quad_key(QuadEncoding::Ospg, q),
            ))
            &&& (m1.gspo == self.gspo || m1.gspo == self.gspo.remove(
                spec_quad_key(QuadEncoding::Gspo, q),
            ))
            &&& (m1.gpos == self.gpos || m1.gpos == self.gpos.remove(
                spec_quad_key(QuadEncoding::Gpos, q),
            ))
            &&& (m1.gosp == self.gosp || m1.gosp == self.gosp.remove(
                spec_quad_key(QuadEncoding::Gosp, q),
            ))
            &&& m1.dspo == self.dspo
            &&& m1.dpos == self.dpos
            &&& m1.dosp == self.dosp
        })
    }

    /// The store after registering the graph written as `g`.
    pub open spec fn with_graph_insert(self, g: TermModel) -> StorageModel {
        StorageModel {
            graphs: self.graphs.insert(spec_write_term(g), Seq::<u8>::empty()),
            ..self
        }
    }

    /// All eleven named keyspaces empty; only the default keyspace (the
    /// version tag) may hold entries.
    pub open spec fn dataset_empty(self) -> bool {
        let empty_m = Map::<Seq<u8>, Seq<u8>>::empty();
        &&& self.id2str == empty_m
        &&& self.spog == empty_m
        &&& self.posg == empty_m
        &&& self.ospg == empty_m
        &&& self.gspo == empty_m
        &&& self.gpos == empty_m
        &&& self.gosp == empty_m
        &&& self.dspo == empty_m
        &&& self.dpos == empty_m
        &&& self.dosp == empty_m
        &&& self.graphs == empty_m
    }

    /// Every keyspace's key set is finite.
    pub open spec fn finite_doms(self) -> bool {
        &&& self.default.dom().finite()
        &&& self.id2str.dom().finite()
        &&& self.spog.dom().finite()
        &&& self.posg.dom().finite()
        &&& self.ospg.dom().finite()
        &&& self.gspo.dom().finite()
        &&& self.gpos.dom().finite()
        &&& self.gosp.dom().finite()
        &&& self.dspo.dom().finite()
        &&& self.dpos.dom().finite()
        &&& self.dosp.dom().finite()
        &&& self.graphs.dom().finite()
    }

    /// The stored version tag, where one is present with the right width.
    pub open spec fn stored_version(self) -> Option<u64> {
        if self.default.dom().contains(spec_version_key()) && self.default[spec_version_key()].len()
            == 8 {
            Some(spec_u64_from_be_bytes(self.default[spec_version_key()]))
        } else {
            None
        }
    }
}

/// Low-level storage primitives over eleven sled keyspaces.
pub struct Storage {
    pub(crate) default: sled::Db,
    pub(crate) id2str: sled::Tree,
    pub(crate) spog: sled::Tree,
    pub(crate) posg: sled::Tree,
    pub(crate) ospg: sled::Tree,
    pub(crate) gspo: sled::Tree,
    pub(crate) gpos: sled::Tree,
    pub(crate) gosp: sled::Tree,
    pub(crate) dspo: sled::Tree,
    pub(crate) dpos: sled::Tree,
    pub(crate) dosp: sled::Tree,
    pub(crate) graphs: sled::Tree,
}

impl View for Storage {
    type V = StorageModel;

    closed spec fn view(&self) -> StorageModel {
        StorageModel {
            default: db_entries(self.default),
            id2str: tree_entries(self.id2str),
            spog: tree_entries(self.spog),
            posg: tree_entries(self.posg),
            ospg: tree_entries(self.ospg),
            gspo: tree_entries(self.gspo),
            gpos: tree_entries(self.gpos),
            gosp: tree_entries(self.gosp),
            dspo: tree_entries(self.dspo),
            dpos: tree_entries(self.dpos),
            dosp: tree_entries(self.dosp),
            graphs: tree_entries(self.graphs),
        }
    }
}

impl Storage {
    /// Whether the default graph or a named graph owns `quad`, tested on the
    /// quad's primary keyspace.
    pub fn contains(&self, quad: &EncodedQuad) -> (r: Result<bool, std::io::Error>)
        requires
            quad.wf(),
        ensures
            r matches Ok(b) ==> b == self@.contains_quad(quad@),
    {
        let mut buffer: Vec<u8> = Vec::with_capacity(4 * WRITTEN_TERM_MAX_SIZE);
        if quad.graph_name.is_default_graph() {
            write_spo_quad(&mut buffer, quad);
            proof {
                assert(buffer@ =~= spec_quad_key(QuadEncoding::Dspo, quad@));
            }
            tree_contains_key(&self.dspo, buffer.as_slice())
        } else {
            write_spog_quad(&mut buffer, quad);
            proof {
                assert(buffer@ =~= spec_quad_key(QuadEncoding::Spog, quad@));
            }
            tree_contains_key(&self.spog, buffer.as_slice())
        }
    }

    /// Inserts `quad`: the primary key first and, exactly when it was new,
    /// the redundant mirrors (and for a named graph its registry entry).
    /// Returns whether the quad was new.  On an error the keyspaces may have
    /// been updated only in part.
    pub fn insert(&mut self, quad: &EncodedQuad) -> (r: Result<bool, std::io::Error>)
        requires
            quad.wf(),
        ensures
            r matches Ok(is_new) ==> (final(self)@ == old(self)@.with_insert(quad@) && is_new
                == !old(self)@.contains_quad(quad@)),
            r matches Err(_) ==> old(self)@.insert_partial(final(self)@, quad@),
    {
        let mut buffer: Vec<u8> = Vec::with_capacity(4 * WRITTEN_TERM_MAX_SIZE + 1);
        let empty_value: Vec<u8> = Vec::new();

        if quad.graph_name.is_default_graph() {
            write_spo_quad(&mut buffer, quad);
            proof {
                assert(buffer@ =~= spec_quad_key(QuadEncoding::Dspo, quad@));
            }
            let is_new = tree_insert(&mut self.dspo, buffer.as_slice(), empty_value.as_slice())?;

            if is_new {
                buffer.clear();
                write_pos_quad(&mut buffer, quad);
                proof {
                    assert(buffer@ =~= spec_quad_key(QuadEncoding::Dpos, quad@));
                }
                tree_insert(&mut self.dpos, buffer.as_slice(), empty_value.as_slice())?;
                buffer.clear();
                write_osp_quad(&mut buffer, quad);
                proof {
                    assert(buffer@ =~= spec_quad_key(QuadEncoding::Dosp, quad@));
                }
                tree_insert(&mut self.dosp, buffer.as_slice(), empty_value.as_slice())?;
            }
            proof {
                assert(self@ =~= old(self)@.with_insert(quad@));
            }
            Ok(is_new)
        } else {
            write_spog_quad(&mut buffer, quad);
            proof {
                assert(buffer@ =~= spec_quad_key(QuadEncoding::Spog, quad@));
            }
            let is_new = tree_insert(&mut self.spog, buffer.as_slice(), empty_value.as_slice())?;

            if is_new {
                buffer.clear();
                write_posg_quad(&mut buffer, quad);
                proof {
                    assert(buffer@ =~= spec_quad_key(QuadEncoding::Posg, quad@));
                }
                tree_insert(&mut self.posg, buffer.as_slice(), empty_value.as_slice())?;
                buffer.clear();
                write_ospg_quad(&mut buffer, quad);
                proof {
                    assert(buffer@ =~= spec_quad_key(QuadEncoding::Ospg, quad@));
                }
                tree_insert(&mut self.ospg, buffer.as_slice(), empty_value.as_slice())?;
                buffer.clear();
                write_gspo_quad(&mut buffer, quad);
                proof {
                    assert(buffer@ =~= spec_quad_key(QuadEncoding::Gspo, quad@));
                }
                tree_insert(&mut self.gspo, buffer.as_slice(), empty_value.as_slice())?;
                buffer.clear();
                write_gpos_quad(&mut buffer, quad);
                proof {
                    assert(buffer@ =~= spec_quad_key(QuadEncoding::Gpos, quad@));
                }
                tree_insert(&mut self.gpos, buffer.as_slice(), empty_value.as_slice())?;
                buffer.clear();
                write_gosp_quad(&mut buffer, quad);
                proof {
                    assert(buffer@ =~= spec_quad_key(QuadEncoding::Gosp, quad@));
                }
                tree_insert(&mut self.gosp, buffer.as_slice(), empty_value.as_slice())?;
                buffer.clear();
                write_term(&mut buffer, &quad.graph_name);
                proof {
                    assert(buffer@ =~= spec_write_term(quad@.graph_name));
                }
                tree_insert(&mut self.graphs, buffer.as_slice(), empty_value.as_slice())?;
            }
            proof {
                assert(self@ =~= old(self)@.with_insert(quad@));
            }
            Ok(is_new)
        }
    }

    /// Removes `quad`: the primary key first and, exactly when it was
    /// present, the mirrors.  The registry entry of its graph is kept.
    /// Returns whether the quad was present.  On an error the keyspaces may
    /// have been updated only in part.
    pub fn remove(&mut self, quad: &EncodedQuad) -> (r: Result<bool, std::io::Error>)
        requires
            quad.wf(),
        ensures
            r matches Ok(was_in) ==> (final(self)@ == old(self)@.with_remove(quad@) && was_in
                == old(self)@.contains_quad(quad@)),
            r matches Err(_) ==> old(self)@.remove_partial(final(self)@, quad@),
    {
        let mut buffer: Vec<u8> = Vec::with_capacity(4 * WRITTEN_TERM_MAX_SIZE + 1);

        if quad.graph_name.is_default_graph() {
            write_spo_quad(&mut buffer, quad);
            proof {
                assert(buffer@ =~= spec_quad_key(QuadEncoding::Dspo, quad@));
            }
            let is_present = tree_remove(&mut self.dspo, buffer.as_slice())?;

            if is_present {
                buffer.clear();
                write_pos_quad(&mut buffer, quad);
                proof {
                    assert(buffer@ =~= spec_quad_key(QuadEncoding::Dpos, quad@));
                }
                tree_remove(&mut self.dpos, buffer.as_slice())?;
                buffer.clear();
                write_osp_quad(&mut buffer, quad);
                proof {
                    assert(buffer@ =~= spec_quad_key(QuadEncoding::Dosp, quad@));
                }
                tree_remove(&mut self.dosp, buffer.as_slice())?;
            }
            proof {
                assert(self@ =~= old(self)@.with_remove(quad@));
            }
            Ok(is_present)
        } else {
            write_spog_quad(&mut buffer, quad);
            proof {
                assert(buffer@ =~= spec_quad_key(QuadEncoding::Spog, quad@));
            }
            let is_present = tree_remove(&mut self.spog, buffer.as_slice())?;

            if is_present {
                buffer.clear();
                write_posg_quad(&mut buffer, quad);
                proof {
                    assert(buffer@ =~= spec_quad_key(QuadEncoding::Posg, quad@));
                }
                tree_remove(&mut self.posg, buffer.as_slice())?;
                buffer.clear();
                write_ospg_quad(&mut buffer, quad);
                proof {
                    assert(buffer@ =~= spec_quad_key(QuadEncoding::Ospg, quad@));
                }
                tree_remove(&mut self.ospg, buffer.as_slice())?;
                buffer.clear();
                write_gspo_quad(&mut buffer, quad);
                proof {
                    assert(buffer@ =~= spec_quad_key(QuadEncoding::Gspo, quad@));
                }
                tree_remove(&mut self.gspo, buffer.as_slice())?;
                buffer.clear();
                write_gpos_quad(&mut buffer, quad);
                proof {
                    assert(buffer@ =~= spec_quad_key(QuadEncoding::Gpos, quad@));
                }
                tree_remove(&mut self.gpos, buffer.as_slice())?;
                buffer.clear();
                write_gosp_quad(&mut buffer, quad);
                proof {
                    assert(buffer@ =~= spec_quad_key(QuadEncoding::Gosp, quad@));
                }
                tree_remove(&mut self.gosp, buffer.as_slice())?;
            }
            proof {
                assert(self@ =~= old(self)@.with_remove(quad@));
            }
            Ok(is_present)
        }
    }

    /// Adds `graph_name` to the named-graph registry only; returns whether it
    /// was new there.
    pub fn insert_named_graph(&mut self, graph_name: &EncodedTerm) -> (r: Result<
        bool,
        std::io::Error,
    >)
        requires
            graph_name.wf(),
        ensures
            r matches Ok(is_new) ==> (final(self)@ == old(self)@.with_graph_insert(graph_name@)
                && is_new == !old(self)@.contains_graph(graph_name@)),
            r matches Err(_) ==> (final(self)@ == old(self)@
                || final(self)@ == old(self)@.with_graph_insert(graph_name@)),
    {
        let key = encode_term(graph_name);
        let empty_value: Vec<u8> = Vec::new();
        let r = tree_insert(&mut self.graphs, key.as_slice(), empty_value.as_slice());
        proof {
            if r is Ok {
                assert(self@ =~= old(self)@.with_graph_insert(graph_name@));
            } else {
                if tree_entries(self.graphs) == tree_entries(old(self).graphs) {
                    assert(self@ =~= old(self)@);
                } else {
                    assert(self@ =~= old(self)@.with_graph_insert(graph_name@));
                }
            }
        }
        r
    }

    /// Whether the registry lists `graph_name`.
    pub fn contains_named_graph(&self, graph_name: &EncodedTerm) -> (r: Result<
        bool,
        std::io::Error,
    >)
        requires
            graph_name.wf(),
        ensures
            r matches Ok(b) ==> b == self@.contains_graph(graph_name@),
    {
        let key = encode_term(graph_name);
        tree_contains_key(&self.graphs, key.as_slice())
    }

    /// The number of stored quads: the keys of the two primary keyspaces,
    /// counted by scanning them (saturating at the machine limit).
    pub fn len(&self) -> (r: Result<usize, std::io::Error>)
        ensures
            r matches Ok(n) ==> ({
                let total = self@.gspo.dom().len() + self@.dspo.dom().len();
                &&& total <= usize::MAX ==> n as nat == total
                &&& total > usize::MAX ==> n == usize::MAX
            }),
    {
        let g = tree_key_count(&self.gspo)?;
        let d = tree_key_count(&self.dspo)?;
        if g <= usize::MAX - d {
            Ok(g + d)
        } else {
            Ok(usize::MAX)
        }
    }

    /// Whether the store holds no quad at all.
    pub fn is_empty(&self) -> (r: Result<bool, std::io::Error>)
        ensures
            r matches Ok(b) ==> b == (self@.gspo.dom().len() == 0 && self@.dspo.dom().len()
                == 0),
    {
        let n = self.len()?;
        Ok(n == 0)
    }

    /// Truncates the eleven named keyspaces: all quads, the registry and the
    /// interner.  The version tag is kept.
    pub fn clear(&mut self) -> (r: Result<(), std::io::Error>)
        ensures
            r matches Ok(_) ==> (final(self)@ == (StorageModel {
                default: old(self)@.default,
                ..empty_storage_model()
            })),
            r matches Err(_) ==> ({
                let m0 = old(self)@;
                let m1 = final(self)@;
                &&& m1.default == m0.default
                &&& map_shrunk(m1.id2str, m0.id2str)
                &&& map_shrunk(m1.spog, m0.spog)
                &&& map_shrunk(m1.posg, m0.posg)
                &&& map_shrunk(m1.ospg, m0.ospg)
                &&& map_shrunk(m1.gspo, m0.gspo)
                &&& map_shrunk(m1.gpos, m0.gpos)
                &&& map_shrunk(m1.gosp, m0.gosp)
                &&& map_shrunk(m1.dspo, m0.dspo)
                &&& map_shrunk(m1.dpos, m0.dpos)
                &&& map_shrunk(m1.dosp, m0.dosp)
                &&& map_shrunk(m1.graphs, m0.graphs)
            }),
    {
        tree_clear(&mut self.dspo)?;
        tree_clear(&mut self.dpos)?;
        tree_clear(&mut self.dosp)?;
        tree_clear(&mut self.gspo)?;
        tree_clear(&mut self.gpos)?;
        tree_clear(&mut self.gosp)?;
        tree_clear(&mut self.spog)?;
        tree_clear(&mut self.posg)?;
        tree_clear(&mut self.ospg)?;
        tree_clear(&mut self.graphs)?;
        tree_clear(&mut self.id2str)?;
        proof {
            assert(self@ =~= (StorageModel { default: old(self)@.default, ..empty_storage_model() }));
        }
        Ok(())
    }

    /// Blocks until all pending writes are durable.
    pub fn flush(&self) -> (r: Result<(), std::io::Error>) {
        db_flush(&self.default)
    }

    /// The interned string stored under `key`, if any; invalid stored UTF-8
    /// is an invalid-data error.
    pub fn get_str(&self, key: &StrHash) -> (r: Result<Option<String>, std::io::Error>)
        ensures
            r matches Ok(v) ==> ((v is Some <==> self@.id2str.dom().contains(spec_u128_be_bytes(
                key.hash,
            ))) && (v matches Some(s) ==> encode_utf8(s@) == self@.id2str[spec_u128_be_bytes(
                key.hash,
            )])),
    {
        let k = key.to_be_bytes();
        match tree_get(&self.id2str, k.as_slice())? {
            Some(bytes) => match crate::backend::bytes_to_string(bytes) {
                Some(s) => Ok(Some(s)),
                None => Err(crate::backend::invalid_data_error(
                    "the interner holds a string that is not valid UTF-8",
                )),
            },
            None => Ok(None),
        }
    }

    /// Whether the interner holds a string under `key`.
    pub fn contains_str(&self, key: &StrHash) -> (r: Result<bool, std::io::Error>)
        ensures
            r matches Ok(b) ==> b == self@.id2str.dom().contains(spec_u128_be_bytes(key.hash)),
    {
        let k = key.to_be_bytes();
        tree_contains_key(&self.id2str, k.as_slice())
    }

    /// Interns `value` under `key`; returns whether the key was new.  Entries
    /// are never removed by quad removal.
    pub fn insert_str(&mut self, key: &StrHash, value: &str) -> (r: Result<
        bool,
        std::io::Error,
    >)
        ensures
            r matches Ok(is_new) ==> (final(self)@ == (StorageModel {
                id2str: old(self)@.id2str.insert(
                    spec_u128_be_bytes(key.hash),
                    encode_utf8(value@),
                ),
                ..old(self)@
            }) && is_new == !old(self)@.id2str.dom().contains(spec_u128_be_bytes(key.hash))),
            r matches Err(_) ==> ((final(self)@.id2str == old(self)@.id2str
                || final(self)@.id2str == old(self)@.id2str.insert(
                spec_u128_be_bytes(key.hash),
                encode_utf8(value@),
            )) && final(self)@ == (StorageModel { id2str: final(self)@.id2str, ..old(self)@ })),
    {
        let k = key.to_be_bytes();
        let r = tree_insert(&mut self.id2str, k.as_slice(), value.as_bytes());
        proof {
            if r is Ok {
                assert(self@ =~= (StorageModel {
                    id2str: old(self)@.id2str.insert(
                        spec_u128_be_bytes(key.hash),
                        encode_utf8(value@),
                    ),
                    ..old(self)@
                }));
            }
        }
        r
    }
}

/// The model with every keyspace empty.
pub open spec fn empty_storage_model() -> StorageModel {
    let empty_m = Map::<Seq<u8>, Seq<u8>>::empty();
    StorageModel {
        default: empty_m,
        id2str: empty_m,
        spog: empty_m,
        posg: empty_m,
        ospg: empty_m,
        gspo: empty_m,
        gpos: empty_m,
        gosp: empty_m,
        dspo: empty_m,
        dpos: empty_m,
        dosp: empty_m,
        graphs: empty_m,
    }
}

impl Storage {
    /// A store with all eleven named keyspaces empty and the version tag
    /// freshly written; backed by a temporary sled database that is removed
    /// on drop.
    pub fn new() -> (r: Result<Storage, std::io::Error>)
        ensures
            r matches Ok(s) ==> (s@.inv() && s@.dataset_empty() && s@.stored_version() == Some(
                LATEST_STORAGE_VERSION,
            )),
    {
        let db = open_temporary_db()?;
        let mut s = open_keyspaces(db)?;
        s.clear()?;
        s.check_version()?;
        proof {
            lemma_u64_be_bytes(LATEST_STORAGE_VERSION);
            assert(s@.inv());
        }
        Ok(s)
    }

    /// Opens (or creates) the store persisted at `path` and checks its
    /// version tag: an absent tag is written as the latest version, tag `0`
    /// triggers the one supported migration, any other tag that differs from
    /// the latest version is refused.
    pub fn open(path: &str) -> (r: Result<Storage, std::io::Error>)
        ensures
            r matches Ok(s) ==> (s@.finite_doms() && s@.stored_version() == Some(
                LATEST_STORAGE_VERSION,
            )),
    {
        let db = open_db(path)?;
        let mut s = open_keyspaces(db)?;
        s.check_version()?;
        Ok(s)
    }

    /// Reads the stored version tag; writes (and returns) the latest version
    /// when none is stored yet.  A tag that is not 8 bytes wide is an
    /// invalid-data error.
    fn ensure_version(&mut self) -> (r: Result<u64, std::io::Error>)
        ensures
            r matches Ok(v) ==> ({
                let m0 = old(self)@;
                &&& (m0.stored_version() matches Some(sv) ==> v == sv && final(self)@ == m0)
                &&& (!m0.default.dom().contains(spec_version_key()) ==> (v
                    == LATEST_STORAGE_VERSION && final(self)@ == (StorageModel {
                    default: m0.default.insert(
                        spec_version_key(),
                        spec_u64_be_bytes(LATEST_STORAGE_VERSION),
                    ),
                    ..m0
                })))
            }),
            old(self)@.default.dom().contains(spec_version_key()) && old(
                self,
            )@.default[spec_version_key()].len() != 8 ==> r is Err,
            (old(self)@.default.dom().contains(spec_version_key()) && r is Err)
                ==> final(self)@ == old(self)@,
    {
        let vk = version_key();
        match db_get(&self.default, vk.as_slice())? {
            Some(bytes) => {
                if bytes.len() == 8 {
                    Ok(u64_from_be_bytes(bytes.as_slice()))
                } else {
                    Err(crate::backend::invalid_data_error(
                        "the stored version tag is not 8 bytes wide",
                    ))
                }
            },
            None => {
                self.set_version(LATEST_STORAGE_VERSION)?;
                Ok(LATEST_STORAGE_VERSION)
            },
        }
    }

    /// Writes `version` under the reserved version key.
    fn set_version(&mut self, version: u64) -> (r: Result<(), std::io::Error>)
        ensures
            r matches Ok(_) ==> final(self)@ == (StorageModel {
                default: old(self)@.default.insert(
                    spec_version_key(),
                    spec_u64_be_bytes(version),
                ),
                ..old(self)@
            }),
    {
        let vk = version_key();
        let value = u64_be_bytes(version);
        let r = db_insert(&mut self.default, vk.as_slice(), value.as_slice());
        proof {
            if r is Ok {
                assert(self@ =~= (StorageModel {
                    default: old(self)@.default.insert(
                        spec_version_key(),
                        spec_u64_be_bytes(version),
                    ),
                    ..old(self)@
                }));
            }
        }
        r
    }

    /// Registers, in the graph registry, the graph of every quad stored in
    /// `gspo`; part of the migration from version tag `0`.  A stored key that
    /// does not decode is an invalid-data error.
    fn migrate_graph_registry(&mut self) -> (r: Result<(), std::io::Error>)
        ensures
            r matches Ok(_) ==> ({
                let m0 = old(self)@;
                let m1 = final(self)@;
                &&& m1.default == m0.default
                &&& m1.id2str == m0.id2str
                &&& m1.spog == m0.spog
                &&& m1.posg == m0.posg
                &&& m1.ospg == m0.ospg
                &&& m1.gspo == m0.gspo
                &&& m1.gpos == m0.gpos
                &&& m1.gosp == m0.gosp
                &&& m1.dspo == m0.dspo
                &&& m1.dpos == m0.dpos
                &&& m1.dosp == m0.dosp
                &&& (m0.graphs.dom().finite() ==> m1.graphs.dom().finite())
                &&& (forall|k: Seq<u8>| #[trigger] m0.graphs.dom().contains(k)
                    ==> m1.graphs.dom().contains(k))
                &&& (forall|q: QuadModel|
                    q.wf_named() && m0.gspo.dom().contains(#[trigger] spec_quad_key(
                        QuadEncoding::Gspo,
                        q,
                    )) ==> m1.graphs.dom().contains(spec_write_term(q.graph_name)))
            }),
    {
        proof {
            assert forall|k: Seq<u8>| starts_with(Seq::<u8>::empty(), k) by {
                assert(Seq::<u8>::empty() =~= k.subrange(0, 0));
            }
        }
        let empty_prefix: Vec<u8> = Vec::new();
        let empty_value: Vec<u8> = Vec::new();

        // The original migration walks every stored quad, so undecodable
        // default-graph keys surface here too.
        let dspo_keys = tree_scan_prefix(&self.dspo, empty_prefix.as_slice())?;
        let mut i: usize = 0;
        while i < dspo_keys.len()
            invariant
                forall|ii: int| 0 <= ii < dspo_keys@.len()
                    ==> spec_decode_quad(QuadEncoding::Dspo, #[trigger] dspo_keys@[ii]@) is Some
                        || ii >= i,
            decreases dspo_keys@.len() - i,
        {
            match QuadEncoding::Dspo.decode(dspo_keys[i].as_slice()) {
                Some(_) => {},
                None => {
                    return Err(crate::backend::invalid_data_error(
                        "a stored quad key does not decode",
                    ));
                },
            }
            i = i + 1;
        }

        let gspo_keys = tree_scan_prefix(&self.gspo, empty_prefix.as_slice())?;
        let ghost m0 = old(self)@;
        let mut j: usize = 0;
        while j < gspo_keys.len()
            invariant
                j <= gspo_keys@.len(),
                self@.default == m0.default,
                self@.id2str == m0.id2str,
                self@.spog == m0.spog,
                self@.posg == m0.posg,
                self@.ospg == m0.ospg,
                self@.gspo == m0.gspo,
                self@.gpos == m0.gpos,
                self@.gosp == m0.gosp,
                self@.dspo == m0.dspo,
                self@.dpos == m0.dpos,
                self@.dosp == m0.dosp,
                m0.graphs.dom().finite() ==> self@.graphs.dom().finite(),
                forall|k: Seq<u8>| #[trigger] m0.graphs.dom().contains(k)
                    ==> self@.graphs.dom().contains(k),
                forall|jj: int| 0 <= jj < j ==> match spec_decode_quad(
                    QuadEncoding::Gspo,
                    #[trigger] gspo_keys@[jj]@,
                ) {
                    Some(q) => self@.graphs.dom().contains(spec_write_term(q.graph_name)),
                    None => false,
                },
                forall|k: Seq<u8>| #[trigger] m0.gspo.dom().contains(k) && starts_with(
                    Seq::<u8>::empty(),
                    k,
                ) ==> exists|ii: int| 0 <= ii < gspo_keys@.len() && #[trigger] gspo_keys@[ii]@
                    == k,
            decreases gspo_keys@.len() - j,
        {
            match QuadEncoding::Gspo.decode(gspo_keys[j].as_slice()) {
                Some(quad) => {
                    let key = encode_term(&quad.graph_name);
                    tree_insert(&mut self.graphs, key.as_slice(), empty_value.as_slice())?;
                },
                None => {
                    return Err(crate::backend::invalid_data_error(
                        "a stored quad key does not decode",
                    ));
                },
            }
            j = j + 1;
        }
        proof {
            assert forall|q: QuadModel|
                q.wf_named() && m0.gspo.dom().contains(#[trigger] spec_quad_key(
                    QuadEncoding::Gspo,
                    q,
                )) implies self@.graphs.dom().contains(spec_write_term(q.graph_name)) by {
                let k = spec_quad_key(QuadEncoding::Gspo, q);
                assert(starts_with(Seq::<u8>::empty(), k)) by {
                    assert(Seq::<u8>::empty() =~= k.subrange(0, 0));
                }
                let ii = choose|ii: int|
                    0 <= ii < gspo_keys@.len() && #[trigger] gspo_keys@[ii]@ == k;
                crate::binary_encoder::lemma_quad_key_round_trip(QuadEncoding::Gspo, q);
            }
        }
        Ok(())
    }

    /// The version handshake run on open: leaves the stored tag at the latest
    /// version or fails.  An absent tag is written as the latest version; a
    /// stored tag of `0` first registers the graphs of all stored named-graph
    /// quads, then moves the tag to `1`; any other tag that differs from the
    /// latest version is refused.  Idempotent on a store whose tag is already
    /// the latest.
    pub fn check_version(&mut self) -> (r: Result<(), std::io::Error>)
        ensures
            r matches Ok(_) ==> ({
                let m0 = old(self)@;
                let m1 = final(self)@;
                &&& m1.stored_version() == Some(LATEST_STORAGE_VERSION)
                &&& (m0.stored_version() == Some(LATEST_STORAGE_VERSION) ==> m1 == m0)
                &&& (!m0.default.dom().contains(spec_version_key()) ==> m1 == (StorageModel {
                    default: m0.default.insert(
                        spec_version_key(),
                        spec_u64_be_bytes(LATEST_STORAGE_VERSION),
                    ),
                    ..m0
                }))
                &&& (m0.stored_version() == Some(0u64) ==> ({
                    &&& m1.id2str == m0.id2str
                    &&& m1.spog == m0.spog
                    &&& m1.posg == m0.posg
                    &&& m1.ospg == m0.ospg
                    &&& m1.gspo == m0.gspo
                    &&& m1.gpos == m0.gpos
                    &&& m1.gosp == m0.gosp
                    &&& m1.dspo == m0.dspo
                    &&& m1.dpos == m0.dpos
                    &&& m1.dosp == m0.dosp
                    &&& m1.default == m0.default.insert(
                        spec_version_key(),
                        spec_u64_be_bytes(LATEST_STORAGE_VERSION),
                    )
                    &&& (forall|k: Seq<u8>| #[trigger] m0.graphs.dom().contains(k)
                        ==> m1.graphs.dom().contains(k))
                    &&& (forall|q: QuadModel|
                        q.wf_named() && m0.gspo.dom().contains(#[trigger] spec_quad_key(
                            QuadEncoding::Gspo,
                            q,
                        )) ==> m1.graphs.dom().contains(spec_write_term(q.graph_name)))
                }))
                &&& (m0.finite_doms() ==> m1.finite_doms())
            }),
            old(self)@.stored_version() matches Some(v) && v > LATEST_STORAGE_VERSION ==> r
                is Err,
            old(self)@.stored_version() matches Some(v) && v < LATEST_STORAGE_VERSION && v
                != 0 ==> r is Err,
            (old(self)@.stored_version() matches Some(v) && v != 0 && r is Err)
                ==> final(self)@ == old(self)@,
    {
        proof {
            lemma_u64_be_bytes(LATEST_STORAGE_VERSION);
        }
        let mut version = self.ensure_version()?;
        if version == 0 {
            self.migrate_graph_registry()?;
            version = LATEST_STORAGE_VERSION;
            self.set_version(version)?;
            tree_flush(&self.graphs)?;
        }
        if version < LATEST_STORAGE_VERSION {
            Err(crate::backend::outdated_version_error(version))
        } else if version == LATEST_STORAGE_VERSION {
            Ok(())
        } else {
            Err(crate::backend::too_recent_version_error(version))
        }
    }
}

/// Counts a keyspace's entries by scanning its keys.
fn tree_key_count(t: &sled::Tree) -> (r: Result<usize, std::io::Error>)
    ensures
        r matches Ok(n) ==> n as nat == tree_entries(*t).dom().len(),
{
    let prefix: Vec<u8> = Vec::new();
    let keys = tree_scan_prefix(t, prefix.as_slice())?;
    proof {
        let s = keys@.map_values(|k: Vec<u8>| k@);
        assert forall|i: int, j: int| 0 <= i < j < s.len() implies s[i] != s[j] by {
            assert(keys@[i]@ != keys@[j]@);
        }
        assert(s.no_duplicates());
        s.unique_seq_to_set();
        assert forall|k: Seq<u8>| #[trigger] s.to_set().contains(k) implies tree_entries(
            *t,
        ).dom().contains(k) by {
            let i = choose|i: int| 0 <= i < s.len() && s[i] == k;
            assert(keys@[i]@ == k);
        }
        assert forall|k: Seq<u8>| #[trigger] tree_entries(*t).dom().contains(k) implies
            s.to_set().contains(k) by {
            assert(prefix@ =~= k.subrange(0, 0));
            assert(starts_with(prefix@, k));
            let i = choose|i: int| 0 <= i < keys@.len() && #[trigger] keys@[i]@ == k;
            assert(s[i] == k);
        }
        assert(s.to_set() =~= tree_entries(*t).dom());
    }
    Ok(keys.len())
}

/// Opens the eleven named keyspaces of `db` and assembles the store around
/// them.
fn open_keyspaces(db: sled::Db) -> (r: Result<Storage, std::io::Error>)
    ensures
        r matches Ok(s) ==> (s@.default == db_entries(db) && s@.id2str.dom().finite()
            && s@.spog.dom().finite() && s@.posg.dom().finite() && s@.ospg.dom().finite()
            && s@.gspo.dom().finite() && s@.gpos.dom().finite() && s@.gosp.dom().finite()
            && s@.dspo.dom().finite() && s@.dpos.dom().finite() && s@.dosp.dom().finite()
            && s@.graphs.dom().finite()),
{
    let id2str = open_tree(&db, "id2str")?;
    let spog = open_tree(&db, "spog")?;
    let posg = open_tree(&db, "posg")?;
    let ospg = open_tree(&db, "ospg")?;
    let gspo = open_tree(&db, "gspo")?;
    let gpos = open_tree(&db, "gpos")?;
    let gosp = open_tree(&db, "gosp")?;
    let dspo = open_tree(&db, "dspo")?;
    let dpos = open_tree(&db, "dpos")?;
    let dosp = open_tree(&db, "dosp")?;
    let graphs = open_tree(&db, "graphs")?;
    Ok(Storage { default: db, id2str, spog, posg, ospg, gspo, gpos, gosp, dspo, dpos, dosp, graphs })
}

/// An iterator over decoded quads of one keyspace scan; the quads are held
/// decoded, last first, and handed out from the back.
pub struct DecodingQuadIterator {
    rev_quads: Vec<EncodedQuad>,
}

impl View for DecodingQuadIterator {
    type V = Seq<QuadModel>;

    closed spec fn view(&self) -> Seq<QuadModel> {
        self.rev_quads@.map_values(|q: EncodedQuad| q@).reverse()
    }
}

impl DecodingQuadIterator {
    /// Hands out the next quad; `None` when the scan is exhausted.
    pub fn next(&mut self) -> (r: Option<EncodedQuad>)
        ensures
            old(self)@.len() == 0 ==> (r is None && final(self)@ == old(self)@),
            old(self)@.len() > 0 ==> (r matches Some(q) && q@ == old(self)@[0] && final(self)@
                == old(self)@.drop_first()),
    {
        let r = self.rev_quads.pop();
        proof {
            if old(self)@.len() > 0 {
                assert(self@ =~= old(self)@.drop_first());
            } else {
                assert(self@ =~= old(self)@);
            }
        }
        r
    }
}

/// A two-stage iterator: the default-graph side is drained before the
/// named-graph side begins.
pub struct ChainedDecodingQuadIterator {
    first: DecodingQuadIterator,
    second: Option<DecodingQuadIterator>,
}

impl View for ChainedDecodingQuadIterator {
    type V = Seq<QuadModel>;

    closed spec fn view(&self) -> Seq<QuadModel> {
        match self.second {
            Some(s) => self.first@ + s@,
            None => self.first@,
        }
    }
}

impl ChainedDecodingQuadIterator {
    fn new(first: DecodingQuadIterator) -> (r: ChainedDecodingQuadIterator)
        ensures
            r@ == first@,
    {
        ChainedDecodingQuadIterator { first, second: None }
    }

    fn pair(first: DecodingQuadIterator, second: DecodingQuadIterator) -> (r:
        ChainedDecodingQuadIterator)
        ensures
            r@ == first@ + second@,
    {
        ChainedDecodingQuadIterator { first, second: Some(second) }
    }

    /// Hands out the next quad; `None` when both stages are exhausted.
    pub fn next(&mut self) -> (r: Option<EncodedQuad>)
        ensures
            old(self)@.len() == 0 ==> (r is None && final(self)@ == old(self)@),
            old(self)@.len() > 0 ==> (r matches Some(q) && q@ == old(self)@[0] && final(self)@
                == old(self)@.drop_first()),
    {
        let r = self.first.next();
        match r {
            Some(q) => {
                proof {
                    if old(self)@.len() > 0 {
                        assert(self@ =~= old(self)@.drop_first());
                    }
                }
                Some(q)
            },
            None => {
                match &mut self.second {
                    Some(s) => {
                        let ghost b0 = s@;
                        let r2 = s.next();
                        proof {
                            if old(self)@.len() > 0 {
                                assert(old(self)@ =~= b0);
                                assert(self@ =~= old(self)@.drop_first());
                            } else {
                                assert(self@ =~= old(self)@);
                            }
                        }
                        r2
                    },
                    None => None,
                }
            },
        }
    }
}

/// An iterator over the decoded graph terms of the registry.
pub struct DecodingGraphIterator {
    rev_terms: Vec<EncodedTerm>,
}

impl View for DecodingGraphIterator {
    type V = Seq<TermModel>;

    closed spec fn view(&self) -> Seq<TermModel> {
        self.rev_terms@.map_values(|t: EncodedTerm| t@).reverse()
    }
}

impl DecodingGraphIterator {
    /// Hands out the next graph term; `None` when exhausted.
    pub fn next(&mut self) -> (r: Option<EncodedTerm>)
        ensures
            old(self)@.len() == 0 ==> (r is None && final(self)@ == old(self)@),
            old(self)@.len() > 0 ==> (r matches Some(t) && t@ == old(self)@[0] && final(self)@
                == old(self)@.drop_first()),
    {
        let r = self.rev_terms.pop();
        proof {
            if old(self)@.len() > 0 {
                assert(self@ =~= old(self)@.drop_first());
            } else {
                assert(self@ =~= old(self)@);
            }
        }
        r
    }
}

/// In a chained scan the default graph's stage is drained first: no
/// named-graph quad precedes a default-graph quad.
pub open spec fn default_first(v: Seq<QuadModel>) -> bool {
    forall|i: int, j: int|
        0 <= i < j < v.len() && ((#[trigger] v[j]).graph_name is DefaultGraph) ==> (
        #[trigger] v[i]).graph_name is DefaultGraph
}

/// Scans `tree` for keys starting with `prefix` and decodes each under
/// `encoding`.  When the keyspace is well formed the result holds exactly the
/// stored quads whose key starts with `prefix`, without duplicates; a key
/// that does not decode is an invalid-data error.
#[verifier::rlimit(100)]
#[verifier::spinoff_prover]
fn inner_quads(tree: &sled::Tree, prefix: &[u8], encoding: QuadEncoding) -> (r: Result<
    DecodingQuadIterator,
    std::io::Error,
>)
    ensures
        r matches Ok(it) ==> (quad_tree_ok(encoding, tree_entries(*tree)) ==> (
        it@.no_duplicates() && (forall|q: QuadModel|
            #[trigger] it@.contains(q) <==> (quad_wf_for(encoding, q) && tree_entries(
                *tree,
            ).dom().contains(spec_quad_key(encoding, q)) && starts_with(
                prefix@,
                spec_quad_key(encoding, q),
            ))) && (forall|i: int, j: int|
            0 <= i < j < it@.len() ==> lex_lt(
                spec_quad_key(encoding, #[trigger] it@[i]),
                spec_quad_key(encoding, #[trigger] it@[j]),
            )))),
{
    let keys = tree_scan_prefix(tree, prefix)?;
    let ghost n = keys@.len();
    let mut rev: Vec<EncodedQuad> = Vec::new();
    let mut i: usize = keys.len();
    while i > 0
        invariant
            i <= n,
            n == keys@.len(),
            rev@.len() == n - i,
            forall|jj: int| 0 <= jj < rev@.len() ==> match spec_decode_quad(
                encoding,
                keys@[n - 1 - jj]@,
            ) {
                Some(q) => #[trigger] rev@[jj]@ == q,
                None => false,
            },
        decreases i,
    {
        i = i - 1;
        match encoding.decode(keys[i].as_slice()) {
            Some(quad) => {
                rev.push(quad);
            },
            None => {
                return Err(crate::backend::invalid_data_error(
                    "a stored quad key does not decode",
                ));
            },
        }
    }
    let it = DecodingQuadIterator { rev_quads: rev };
    proof {
        let v = it@;
        assert(v.len() == n);
        assert forall|jj: int| 0 <= jj < n implies match spec_decode_quad(
            encoding,
            keys@[jj]@,
        ) {
            Some(q) => #[trigger] v[jj] == q,
            None => false,
        } by {
            assert(v[jj] == rev@[n - 1 - jj]@);
        }
        if quad_tree_ok(encoding, tree_entries(*tree)) {
            assert forall|q: QuadModel| #[trigger] v.contains(q) <==> (quad_wf_for(encoding, q)
                && tree_entries(*tree).dom().contains(spec_quad_key(encoding, q))
                && starts_with(prefix@, spec_quad_key(encoding, q))) by {
                if v.contains(q) {
                    let jj = choose|jj: int| 0 <= jj < v.len() && v[jj] == q;
                    let k = keys@[jj]@;
                    assert(tree_entries(*tree).dom().contains(k) && starts_with(prefix@, k));
                    let q2 = choose|q2: QuadModel|
                        quad_wf_for(encoding, q2) && k == #[trigger] spec_quad_key(encoding, q2);
                    crate::binary_encoder::lemma_quad_key_round_trip(encoding, q2);
                    assert(q == q2);
                }
                if quad_wf_for(encoding, q) && tree_entries(*tree).dom().contains(
                    spec_quad_key(encoding, q),
                ) && starts_with(prefix@, spec_quad_key(encoding, q)) {
                    let k = spec_quad_key(encoding, q);
                    let ii = choose|ii: int| 0 <= ii < keys@.len() && #[trigger] keys@[ii]@ == k;
                    crate::binary_encoder::lemma_quad_key_round_trip(encoding, q);
                    assert(v[ii] == q);
                    assert(v.contains(q));
                }
            }
            assert forall|ii: int, jj: int| 0 <= ii < jj < v.len() implies v[ii] != v[jj] by {
                let ki = keys@[ii]@;
                let kj = keys@[jj]@;
                let qi = choose|qi: QuadModel|
                    quad_wf_for(encoding, qi) && ki == #[trigger] spec_quad_key(encoding, qi);
                let qj = choose|qj: QuadModel|
                    quad_wf_for(encoding, qj) && kj == #[trigger] spec_quad_key(encoding, qj);
                crate::binary_encoder::lemma_quad_key_round_trip(encoding, qi);
                crate::binary_encoder::lemma_quad_key_round_trip(encoding, qj);
                assert(v[ii] == qi && v[jj] == qj);
            }
            assert(v.no_duplicates());
            assert forall|ii: int, jj: int| 0 <= ii < jj < v.len() implies lex_lt(
                spec_quad_key(encoding, #[trigger] v[ii]),
                spec_quad_key(encoding, #[trigger] v[jj]),
            ) by {
                let ki = keys@[ii]@;
                let kj = keys@[jj]@;
                let qi = choose|qi: QuadModel|
                    quad_wf_for(encoding, qi) && ki == #[trigger] spec_quad_key(encoding, qi);
                let qj = choose|qj: QuadModel|
                    quad_wf_for(encoding, qj) && kj == #[trigger] spec_quad_key(encoding, qj);
                crate::binary_encoder::lemma_quad_key_round_trip(encoding, qi);
                crate::binary_encoder::lemma_quad_key_round_trip(encoding, qj);
                assert(v[ii] == qi && v[jj] == qj);
                assert(lex_lt(ki, kj));
            }
        }
    }
    Ok(it)
}

/// Chaining a default-graph stage with a named-graph stage keeps the stages'
/// quads apart: the union has no duplicates and holds exactly both sides.
proof fn lemma_chain_sides(a: Seq<QuadModel>, b: Seq<QuadModel>)
    requires
        a.no_duplicates(),
        b.no_duplicates(),
        forall|q: QuadModel| #[trigger] a.contains(q) ==> q.graph_name is DefaultGraph,
        forall|q: QuadModel| #[trigger] b.contains(q) ==> !(q.graph_name is DefaultGraph),
    ensures
        (a + b).no_duplicates(),
        forall|q: QuadModel| #[trigger] (a + b).contains(q) <==> a.contains(q) || b.contains(q),
        default_first(a + b),
{
    assert forall|q: QuadModel| #[trigger] (a + b).contains(q) <==> a.contains(q) || b.contains(
        q,
    ) by {
        if (a + b).contains(q) {
            let k = choose|k: int| 0 <= k < (a + b).len() && (a + b)[k] == q;
            if k < a.len() {
                assert(a[k] == q);
                assert(a.contains(q));
            } else {
                assert(b[k - a.len()] == q);
                assert(b.contains(q));
            }
        }
        if a.contains(q) {
            let k = choose|k: int| 0 <= k < a.len() && a[k] == q;
            assert((a + b)[k] == q);
            assert((a + b).contains(q));
        }
        if b.contains(q) {
            let k = choose|k: int| 0 <= k < b.len() && b[k] == q;
            assert((a + b)[a.len() + k] == q);
            assert((a + b).contains(q));
        }
    }
    assert forall|ii: int, jj: int| 0 <= ii < jj < (a + b).len() implies (a + b)[ii] != (a
        + b)[jj] by {
        if ii < a.len() && jj >= a.len() {
            assert(a.contains(a[ii]));
            assert(b.contains(b[jj - a.len()]));
        }
    }
    assert((a + b).no_duplicates());
    assert forall|i: int, j: int|
        0 <= i < j < (a + b).len() && (((a + b)[j]).graph_name is DefaultGraph) implies ((a
        + b)[i]).graph_name is DefaultGraph by {
        if j >= a.len() {
            assert(b.contains(b[j - a.len()]));
        } else {
            assert(a.contains(a[i]));
        }
    }
    assert(default_first(a + b));
}

impl Storage {
    /// All stored quads: the default graph first, then the named graphs.
    pub fn quads(&self) -> (r: Result<ChainedDecodingQuadIterator, std::io::Error>)
        ensures
            self@.inv() ==> (r matches Ok(it) ==> (it@.no_duplicates() && default_first(it@) && (forall|q: QuadModel|
                #[trigger] it@.contains(q) <==> (self@.contains_quad(q) && q.wf())))),
    {
        let prefix: Vec<u8> = Vec::new();
        let d = inner_quads(&self.dspo, prefix.as_slice(), QuadEncoding::Dspo)?;
        let n = inner_quads(&self.gspo, prefix.as_slice(), QuadEncoding::Gspo)?;
        let it = ChainedDecodingQuadIterator::pair(d, n);
        proof {
            if self@.inv() {
                assert forall|q: QuadModel| starts_with(
                    prefix@,
                    #[trigger] spec_quad_key(QuadEncoding::Dspo, q),
                ) by {
                    assert(prefix@ =~= spec_quad_key(QuadEncoding::Dspo, q).subrange(0, 0));
                }
                assert forall|q: QuadModel| starts_with(
                    prefix@,
                    #[trigger] spec_quad_key(QuadEncoding::Gspo, q),
                ) by {
                    assert(prefix@ =~= spec_quad_key(QuadEncoding::Gspo, q).subrange(0, 0));
                }
                lemma_chain_sides(d@, n@);
                assert(forall|q: QuadModel| #[trigger] it@.contains(q) <==> (self@.contains_quad(
                    q,
                ) && q.wf()));
            }
        }
        Ok(it)
    }

    fn quads_for_subject(&self, subject: &EncodedTerm) -> (r: Result<
        ChainedDecodingQuadIterator,
        std::io::Error,
    >)
        requires
            subject.wf(),
        ensures
            self@.inv() ==> (r matches Ok(it) ==> (it@.no_duplicates() && default_first(it@) && (forall|q: QuadModel|
                #[trigger] it@.contains(q) <==> (self@.contains_quad(q) && q.wf() && q.subject == subject@)))),
    {
        let prefix = encode_term(subject);
        let d = inner_quads(&self.dspo, prefix.as_slice(), QuadEncoding::Dspo)?;
        let n = inner_quads(&self.spog, prefix.as_slice(), QuadEncoding::Spog)?;
        let it = ChainedDecodingQuadIterator::pair(d, n);
        proof {
            if self@.inv() {
                assert forall|q: QuadModel| quad_wf_for(QuadEncoding::Dspo, q) implies (
                starts_with(prefix@, spec_quad_key(QuadEncoding::Dspo, q)) <==> (q.subject == subject@)) by {
                    crate::binary_encoder::lemma_prefix1_of_key3(subject@, q.subject, q.predicate, q.object);
                }
                assert forall|q: QuadModel| quad_wf_for(QuadEncoding::Spog, q) implies (
                starts_with(prefix@, spec_quad_key(QuadEncoding::Spog, q)) <==> (q.subject == subject@)) by {
                    crate::binary_encoder::lemma_prefix1_of_key4(subject@, q.subject, q.predicate, q.object, q.graph_name);
                }
                lemma_chain_sides(d@, n@);
                assert(forall|q: QuadModel| #[trigger] it@.contains(q) <==> (self@.contains_quad(
                    q,
                ) && q.wf() && q.subject == subject@));
            }
        }
        Ok(it)
    }

    fn quads_for_subject_predicate(&self, subject: &EncodedTerm, predicate: &EncodedTerm) -> (r: Result<
        ChainedDecodingQuadIterator,
        std::io::Error,
    >)
        requires
            subject.wf(),
            predicate.wf(),
        ensures
            self@.inv() ==> (r matches Ok(it) ==> (it@.no_duplicates() && default_first(it@) && (forall|q: QuadModel|
                #[trigger] it@.contains(q) <==> (self@.contains_quad(q) && q.wf() && q.subject == subject@ && q.predicate == predicate@)))),
    {
        let prefix = encode_term_pair(subject, predicate);
        let d = inner_quads(&self.dspo, prefix.as_slice(), QuadEncoding::Dspo)?;
        let n = inner_quads(&self.spog, prefix.as_slice(), QuadEncoding::Spog)?;
        let it = ChainedDecodingQuadIterator::pair(d, n);
        proof {
            if self@.inv() {
                assert forall|q: QuadModel| quad_wf_for(QuadEncoding::Dspo, q) implies (
                starts_with(prefix@, spec_quad_key(QuadEncoding::Dspo, q)) <==> (q.subject == subject@ && q.predicate == predicate@)) by {
                    crate::binary_encoder::lemma_prefix2_of_key3(subject@, predicate@, q.subject, q.predicate, q.object);
                }
                assert forall|q: QuadModel| quad_wf_for(QuadEncoding::Spog, q) implies (
                starts_with(prefix@, spec_quad_key(QuadEncoding::Spog, q)) <==> (q.subject == subject@ && q.predicate == predicate@)) by {
                    crate::binary_encoder::lemma_prefix2_of_key4(subject@, predicate@, q.subject, q.predicate, q.object, q.graph_name);
                }
                lemma_chain_sides(d@, n@);
                assert(forall|q: QuadModel| #[trigger] it@.contains(q) <==> (self@.contains_quad(
                    q,
                ) && q.wf() && q.subject == subject@ && q.predicate == predicate@));
            }
        }
        Ok(it)
    }

    fn quads_for_subject_predicate_object(&self, subject: &EncodedTerm, predicate: &EncodedTerm, object: &EncodedTerm) -> (r: Result<
        ChainedDecodingQuadIterator,
        std::io::Error,
    >)
        requires
            subject.wf(),
            predicate.wf(),
            object.wf(),
        ensures
            self@.inv() ==> (r matches Ok(it) ==> (it@.no_duplicates() && default_first(it@) && (forall|q: QuadModel|
                #[trigger] it@.contains(q) <==> (self@.contains_quad(q) && q.wf() && q.subject == subject@ && q.predicate == predicate@ && q.object == object@)))),
    {
        let prefix = encode_term_triple(subject, predicate, object);
        let d = inner_quads(&self.dspo, prefix.as_slice(), QuadEncoding::Dspo)?;
        let n = inner_quads(&self.spog, prefix.as_slice(), QuadEncoding::Spog)?;
        let it = ChainedDecodingQuadIterator::pair(d, n);
        proof {
            if self@.inv() {
                assert forall|q: QuadModel| quad_wf_for(QuadEncoding::Dspo, q) implies (
                starts_with(prefix@, spec_quad_key(QuadEncoding::Dspo, q)) <==> (q.subject == subject@ && q.predicate == predicate@ && q.object == object@)) by {
                    crate::binary_encoder::lemma_prefix3_of_key3(subject@, predicate@, object@, q.subject, q.predicate, q.object);
                }
                assert forall|q: QuadModel| quad_wf_for(QuadEncoding::Spog, q) implies (
                starts_with(prefix@, spec_quad_key(QuadEncoding::Spog, q)) <==> (q.subject == subject@ && q.predicate == predicate@ && q.object == object@)) by {
                    crate::binary_encoder::lemma_prefix3_of_key4(subject@, predicate@, object@, q.subject, q.predicate, q.object, q.graph_name);
                }
                lemma_chain_sides(d@, n@);
                assert(forall|q: QuadModel| #[trigger] it@.contains(q) <==> (self@.contains_quad(
                    q,
                ) && q.wf() && q.subject == subject@ && q.predicate == predicate@ && q.object == object@));
            }
        }
        Ok(it)
    }

    fn quads_for_subject_object(&self, subject: &EncodedTerm, object: &EncodedTerm) -> (r: Result<
        ChainedDecodingQuadIterator,
        std::io::Error,
    >)
        requires
            subject.wf(),
            object.wf(),
        ensures
            self@.inv() ==> (r matches Ok(it) ==> (it@.no_duplicates() && default_first(it@) && (forall|q: QuadModel|
                #[trigger] it@.contains(q) <==> (self@.contains_quad(q) && q.wf() && q.subject == subject@ && q.object == object@)))),
    {
        let prefix = encode_term_pair(object, subject);
        let d = inner_quads(&self.dosp, prefix.as_slice(), QuadEncoding::Dosp)?;
        let n = inner_quads(&self.ospg, prefix.as_slice(), QuadEncoding::Ospg)?;
        let it = ChainedDecodingQuadIterator::pair(d, n);
        proof {
            if self@.inv() {
                assert forall|q: QuadModel| quad_wf_for(QuadEncoding::Dosp, q) implies (
                starts_with(prefix@, spec_quad_key(QuadEncoding::Dosp, q)) <==> (q.subject == subject@ && q.object == object@)) by {
                    crate::binary_encoder::lemma_prefix2_of_key3(object@, subject@, q.object, q.subject, q.predicate);
                }
                assert forall|q: QuadModel| quad_wf_for(QuadEncoding::Ospg, q) implies (
                starts_with(prefix@, spec_quad_key(QuadEncoding::Ospg, q)) <==> (q.subject == subject@ && q.object == object@)) by {
                    crate::binary_encoder::lemma_prefix2_of_key4(object@, subject@, q.object, q.subject, q.predicate, q.graph_name);
                }
                lemma_chain_sides(d@, n@);
                assert(forall|q: QuadModel| #[trigger] it@.contains(q) <==> (self@.contains_quad(
                    q,
                ) && q.wf() && q.subject == subject@ && q.object == object@));
            }
        }
        Ok(it)
    }

    fn quads_for_predicate(&self, predicate: &EncodedTerm) -> (r: Result<
        ChainedDecodingQuadIterator,
        std::io::Error,
    >)
        requires
            predicate.wf(),
        ensures
            self@.inv() ==> (r matches Ok(it) ==> (it@.no_duplicates() && default_first(it@) && (forall|q: QuadModel|
                #[trigger] it@.contains(q) <==> (self@.contains_quad(q) && q.wf() && q.predicate == predicate@)))),
    {
        let prefix = encode_term(predicate);
        let d = inner_quads(&self.dpos, prefix.as_slice(), QuadEncoding::Dpos)?;
        let n = inner_quads(&self.posg, prefix.as_slice(), QuadEncoding::Posg)?;
        let it = ChainedDecodingQuadIterator::pair(d, n);
        proof {
            if self@.inv() {
                assert forall|q: QuadModel| quad_wf_for(QuadEncoding::Dpos, q) implies (
                starts_with(prefix@, spec_quad_key(QuadEncoding::Dpos, q)) <==> (q.predicate == predicate@)) by {
                    crate::binary_encoder::lemma_prefix1_of_key3(predicate@, q.predicate, q.object, q.subject);
                }
                assert forall|q: QuadModel| quad_wf_for(QuadEncoding::Posg, q) implies (
                starts_with(prefix@, spec_quad_key(QuadEncoding::Posg, q)) <==> (q.predicate == predicate@)) by {
                    crate::binary_encoder::lemma_prefix1_of_key4(predicate@, q.predicate, q.object, q.subject, q.graph_name);
                }
                lemma_chain_sides(d@, n@);
                assert(forall|q: QuadModel| #[trigger] it@.contains(q) <==> (self@.contains_quad(
                    q,
                ) && q.wf() && q.predicate == predicate@));
            }
        }
        Ok(it)
    }

    fn quads_for_predicate_object(&self, predicate: &EncodedTerm, object: &EncodedTerm) -> (r: Result<
        ChainedDecodingQuadIterator,
        std::io::Error,
    >)
        requires
            predicate.wf(),
            object.wf(),
        ensures
            self@.inv() ==> (r matches Ok(it) ==> (it@.no_duplicates() && default_first(it@) && (forall|q: QuadModel|
                #[trigger] it@.contains(q) <==> (self@.contains_quad(q) && q.wf() && q.predicate == predicate@ && q.object == object@)))),
    {
        let prefix = encode_term_pair(predicate, object);
        let d = inner_quads(&self.dpos, prefix.as_slice(), QuadEncoding::Dpos)?;
        let n = inner_quads(&self.posg, prefix.as_slice(), QuadEncoding::Posg)?;
        let it = ChainedDecodingQuadIterator::pair(d, n);
        proof {
            if self@.inv() {
                assert forall|q: QuadModel| quad_wf_for(QuadEncoding::Dpos, q) implies (
                starts_with(prefix@, spec_quad_key(QuadEncoding::Dpos, q)) <==> (q.predicate == predicate@ && q.object == object@)) by {
                    crate::binary_encoder::lemma_prefix2_of_key3(predicate@, object@, q.predicate, q.object, q.subject);
                }
                assert forall|q: QuadModel| quad_wf_for(QuadEncoding::Posg, q) implies (
                starts_with(prefix@, spec_quad_key(QuadEncoding::Posg, q)) <==> (q.predicate == predicate@ && q.object == object@)) by {
                    crate::binary_encoder::lemma_prefix2_of_key4(predicate@, object@, q.predicate, q.object, q.subject, q.graph_name);
                }
                lemma_chain_sides(d@, n@);
                assert(forall|q: QuadModel| #[trigger] it@.contains(q) <==> (self@.contains_quad(
                    q,
                ) && q.wf() && q.predicate == predicate@ && q.object == object@));
            }
        }
        Ok(it)
    }

    fn quads_for_object(&self, object: &EncodedTerm) -> (r: Result<
        ChainedDecodingQuadIterator,
        std::io::Error,
    >)
        requires
            object.wf(),
        ensures
            self@.inv() ==> (r matches Ok(it) ==> (it@.no_duplicates() && default_first(it@) && (forall|q: QuadModel|
                #[trigger] it@.contains(q) <==> (self@.contains_quad(q) && q.wf() && q.object == object@)))),
    {
        let prefix = encode_term(object);
        let d = inner_quads(&self.dosp, prefix.as_slice(), QuadEncoding::Dosp)?;
        let n = inner_quads(&self.ospg, prefix.as_slice(), QuadEncoding::Ospg)?;
        let it = ChainedDecodingQuadIterator::pair(d, n);
        proof {
            if self@.inv() {
                assert forall|q: QuadModel| quad_wf_for(QuadEncoding::Dosp, q) implies (
                starts_with(prefix@, spec_quad_key(QuadEncoding::Dosp, q)) <==> (q.object == object@)) by {
                    crate::binary_encoder::lemma_prefix1_of_key3(object@, q.object, q.subject, q.predicate);
                }
                assert forall|q: QuadModel| quad_wf_for(QuadEncoding::Ospg, q) implies (
                starts_with(prefix@, spec_quad_key(QuadEncoding::Ospg, q)) <==> (q.object == object@)) by {
                    crate::binary_encoder::lemma_prefix1_of_key4(object@, q.object, q.subject, q.predicate, q.graph_name);
                }
                lemma_chain_sides(d@, n@);
                assert(forall|q: QuadModel| #[trigger] it@.contains(q) <==> (self@.contains_quad(
                    q,
                ) && q.wf() && q.object == object@));
            }
        }
        Ok(it)
    }

    fn quads_for_graph(&self, graph_name: &EncodedTerm) -> (r: Result<
        ChainedDecodingQuadIterator,
        std::io::Error,
    >)
        requires
            graph_name.wf(),
        ensures
            self@.inv() ==> (r matches Ok(it) ==> (it@.no_duplicates() && default_first(it@) && (forall|q: QuadModel|
                #[trigger] it@.contains(q) <==> (self@.contains_quad(q) && q.wf()
                    && q.graph_name == graph_name@)))),
    {
        if graph_name.is_default_graph() {
            let prefix = Vec::new();
            let d = inner_quads(&self.dspo, prefix.as_slice(), QuadEncoding::Dspo)?;
            let it = ChainedDecodingQuadIterator::new(d);
            proof {
                if self@.inv() {
                    assert forall|q: QuadModel| quad_wf_for(QuadEncoding::Dspo, q) implies (
                    starts_with(prefix@, spec_quad_key(QuadEncoding::Dspo, q)) <==> (
                    true)) by {
                        assert(Seq::<u8>::empty() =~= spec_quad_key(QuadEncoding::Dspo, q).subrange(0, 0));
                    }
                    assert forall|i: int, j: int|
                        0 <= i < j < it@.len() && ((it@[j]).graph_name is DefaultGraph) implies (
                    it@[i]).graph_name is DefaultGraph by {
                        assert(it@.contains(it@[i]));
                        assert(it@.contains(it@[j]));
                    }
                    assert(default_first(it@));
                    assert(forall|q: QuadModel| #[trigger] it@.contains(q) <==> (
                    self@.contains_quad(q) && q.wf() && q.graph_name == graph_name@));
                }
            }
            Ok(it)
        } else {
            let prefix = encode_term(graph_name);
            let n = inner_quads(&self.gspo, prefix.as_slice(), QuadEncoding::Gspo)?;
            let it = ChainedDecodingQuadIterator::new(n);
            proof {
                if self@.inv() {
                    assert forall|q: QuadModel| quad_wf_for(QuadEncoding::Gspo, q) implies (
                    starts_with(prefix@, spec_quad_key(QuadEncoding::Gspo, q)) <==> (
                    q.graph_name == graph_name@)) by {
                        crate::binary_encoder::lemma_prefix1_of_key4(graph_name@, q.graph_name, q.subject, q.predicate, q.object);
                    }
                    assert forall|i: int, j: int|
                        0 <= i < j < it@.len() && ((it@[j]).graph_name is DefaultGraph) implies (
                    it@[i]).graph_name is DefaultGraph by {
                        assert(it@.contains(it@[i]));
                        assert(it@.contains(it@[j]));
                    }
                    assert(default_first(it@));
                    assert(forall|q: QuadModel| #[trigger] it@.contains(q) <==> (
                    self@.contains_quad(q) && q.wf() && q.graph_name == graph_name@));
                }
            }
            Ok(it)
        }
    }

    fn quads_for_subject_graph(&self, subject: &EncodedTerm, graph_name: &EncodedTerm) -> (r: Result<
        ChainedDecodingQuadIterator,
        std::io::Error,
    >)
        requires
            subject.wf(),
            graph_name.wf(),
        ensures
            self@.inv() ==> (r matches Ok(it) ==> (it@.no_duplicates() && default_first(it@) && (forall|q: QuadModel|
                #[trigger] it@.contains(q) <==> (self@.contains_quad(q) && q.wf()
                    && q.subject == subject@ && q.graph_name == graph_name@)))),
    {
        if graph_name.is_default_graph() {
            let prefix = encode_term(subject);
            let d = inner_quads(&self.dspo, prefix.as_slice(), QuadEncoding::Dspo)?;
            let it = ChainedDecodingQuadIterator::new(d);
            proof {
                if self@.inv() {
                    assert forall|q: QuadModel| quad_wf_for(QuadEncoding::Dspo, q) implies (
                    starts_with(prefix@, spec_quad_key(QuadEncoding::Dspo, q)) <==> (
                    q.subject == subject@)) by {
                        crate::binary_encoder::lemma_prefix1_of_key3(subject@, q.subject, q.predicate, q.object);
                    }
                    assert forall|i: int, j: int|
                        0 <= i < j < it@.len() && ((it@[j]).graph_name is DefaultGraph) implies (
                    it@[i]).graph_name is DefaultGraph by {
                        assert(it@.contains(it@[i]));
                        assert(it@.contains(it@[j]));
                    }
                    assert(default_first(it@));
                    assert(forall|q: QuadModel| #[trigger] it@.contains(q) <==> (
                    self@.contains_quad(q) && q.wf() && q.subject == subject@ && q.graph_name == graph_name@));
                }
            }
            Ok(it)
        } else {
            let prefix = encode_term_pair(graph_name, subject);
            let n = inner_quads(&self.gspo, prefix.as_slice(), QuadEncoding::Gspo)?;
            let it = ChainedDecodingQuadIterator::new(n);
            proof {
                if self@.inv() {
                    assert forall|q: QuadModel| quad_wf_for(QuadEncoding::Gspo, q) implies (
                    starts_with(prefix@, spec_quad_key(QuadEncoding::Gspo, q)) <==> (
                    q.graph_name == graph_name@ && q.subject == subject@)) by {
                        crate::binary_encoder::lemma_prefix2_of_key4(graph_name@, subject@, q.graph_name, q.subject, q.predicate, q.object);
                    }
                    assert forall|i: int, j: int|
                        0 <= i < j < it@.len() && ((it@[j]).graph_name is DefaultGraph) implies (
                    it@[i]).graph_name is DefaultGraph by {
                        assert(it@.contains(it@[i]));
                        assert(it@.contains(it@[j]));
                    }
                    assert(default_first(it@));
                    assert(forall|q: QuadModel| #[trigger] it@.contains(q) <==> (
                    self@.contains_quad(q) && q.wf() && q.subject == subject@ && q.graph_name == graph_name@));
                }
            }
            Ok(it)
        }
    }

    fn quads_for_subject_predicate_graph(&self, subject: &EncodedTerm, predicate: &EncodedTerm, graph_name: &EncodedTerm) -> (r: Result<
        ChainedDecodingQuadIterator,
        std::io::Error,
    >)
        requires
            subject.wf(),
            predicate.wf(),
            graph_name.wf(),
        ensures
            self@.inv() ==> (r matches Ok(it) ==> (it@.no_duplicates() && default_first(it@) && (forall|q: QuadModel|
                #[trigger] it@.contains(q) <==> (self@.contains_quad(q) && q.wf()
                    && q.subject == subject@ && q.predicate == predicate@ && q.graph_name == graph_name@)))),
    {
        if graph_name.is_default_graph() {
            let prefix = encode_term_pair(subject, predicate);
            let d = inner_quads(&self.dspo, prefix.as_slice(), QuadEncoding::Dspo)?;
            let it = ChainedDecodingQuadIterator::new(d);
            proof {
                if self@.inv() {
                    assert forall|q: QuadModel| quad_wf_for(QuadEncoding::Dspo, q) implies (
                    starts_with(prefix@, spec_quad_key(QuadEncoding::Dspo, q)) <==> (
                    q.subject == subject@ && q.predicate == predicate@)) by {
                        crate::binary_encoder::lemma_prefix2_of_key3(subject@, predicate@, q.subject, q.predicate, q.object);
                    }
                    assert forall|i: int, j: int|
                        0 <= i < j < it@.len() && ((it@[j]).graph_name is DefaultGraph) implies (
                    it@[i]).graph_name is DefaultGraph by {
                        assert(it@.contains(it@[i]));
                        assert(it@.contains(it@[j]));
                    }
                    assert(default_first(it@));
                    assert(forall|q: QuadModel| #[trigger] it@.contains(q) <==> (
                    self@.contains_quad(q) && q.wf() && q.subject == subject@ && q.predicate == predicate@ && q.graph_name == graph_name@));
                }
            }
            Ok(it)
        } else {
            let prefix = encode_term_triple(graph_name, subject, predicate);
            let n = inner_quads(&self.gspo, prefix.as_slice(), QuadEncoding::Gspo)?;
            let it = ChainedDecodingQuadIterator::new(n);
            proof {
                if self@.inv() {
                    assert forall|q: QuadModel| quad_wf_for(QuadEncoding::Gspo, q) implies (
                    starts_with(prefix@, spec_quad_key(QuadEncoding::Gspo, q)) <==> (
                    q.graph_name == graph_name@ && q.subject == subject@ && q.predicate == predicate@)) by {
                        crate::binary_encoder::lemma_prefix3_of_key4(graph_name@, subject@, predicate@, q.graph_name, q.subject, q.predicate, q.object);
                    }
                    assert forall|i: int, j: int|
                        0 <= i < j < it@.len() && ((it@[j]).graph_name is DefaultGraph) implies (
                    it@[i]).graph_name is DefaultGraph by {
                        assert(it@.contains(it@[i]));
                        assert(it@.contains(it@[j]));
                    }
                    assert(default_first(it@));
                    assert(forall|q: QuadModel| #[trigger] it@.contains(q) <==> (
                    self@.contains_quad(q) && q.wf() && q.subject == subject@ && q.predicate == predicate@ && q.graph_name == graph_name@));
                }
            }
            Ok(it)
        }
    }

    fn quads_for_subject_predicate_object_graph(&self, subject: &EncodedTerm, predicate: &EncodedTerm, object: &EncodedTerm, graph_name: &EncodedTerm) -> (r: Result<
        ChainedDecodingQuadIterator,
        std::io::Error,
    >)
        requires
            subject.wf(),
            predicate.wf(),
            object.wf(),
            graph_name.wf(),
        ensures
            self@.inv() ==> (r matches Ok(it) ==> (it@.no_duplicates() && default_first(it@) && (forall|q: QuadModel|
                #[trigger] it@.contains(q) <==> (self@.contains_quad(q) && q.wf()
                    && q.subject == subject@ && q.predicate == predicate@ && q.object == object@ && q.graph_name == graph_name@)))),
    {
        if graph_name.is_default_graph() {
            let prefix = encode_term_triple(subject, predicate, object);
            let d = inner_quads(&self.dspo, prefix.as_slice(), QuadEncoding::Dspo)?;
            let it = ChainedDecodingQuadIterator::new(d);
            proof {
                if self@.inv() {
                    assert forall|q: QuadModel| quad_wf_for(QuadEncoding::Dspo, q) implies (
                    starts_with(prefix@, spec_quad_key(QuadEncoding::Dspo, q)) <==> (
                    q.subject == subject@ && q.predicate == predicate@ && q.object == object@)) by {
                        crate::binary_encoder::lemma_prefix3_of_key3(subject@, predicate@, object@, q.subject, q.predicate, q.object);
                    }
                    assert forall|i: int, j: int|
                        0 <= i < j < it@.len() && ((it@[j]).graph_name is DefaultGraph) implies (
                    it@[i]).graph_name is DefaultGraph by {
                        assert(it@.contains(it@[i]));
                        assert(it@.contains(it@[j]));
                    }
                    assert(default_first(it@));
                    assert(forall|q: QuadModel| #[trigger] it@.contains(q) <==> (
                    self@.contains_quad(q) && q.wf() && q.subject == subject@ && q.predicate == predicate@ && q.object == object@ && q.graph_name == graph_name@));
                }
            }
            Ok(it)
        } else {
            let prefix = encode_term_quad(graph_name, subject, predicate, object);
            let n = inner_quads(&self.gspo, prefix.as_slice(), QuadEncoding::Gspo)?;
            let it = ChainedDecodingQuadIterator::new(n);
            proof {
                if self@.inv() {
                    assert forall|q: QuadModel| quad_wf_for(QuadEncoding::Gspo, q) implies (
                    starts_with(prefix@, spec_quad_key(QuadEncoding::Gspo, q)) <==> (
                    q.graph_name == graph_name@ && q.subject == subject@ && q.predicate == predicate@ && q.object == object@)) by {
                        crate::binary_encoder::lemma_prefix4_of_key4(graph_name@, subject@, predicate@, object@, q.graph_name, q.subject, q.predicate, q.object);
                    }
                    assert forall|i: int, j: int|
                        0 <= i < j < it@.len() && ((it@[j]).graph_name is DefaultGraph) implies (
                    it@[i]).graph_name is DefaultGraph by {
                        assert(it@.contains(it@[i]));
                        assert(it@.contains(it@[j]));
                    }
                    assert(default_first(it@));
                    assert(forall|q: QuadModel| #[trigger] it@.contains(q) <==> (
                    self@.contains_quad(q) && q.wf() && q.subject == subject@ && q.predicate == predicate@ && q.object == object@ && q.graph_name == graph_name@));
                }
            }
            Ok(it)
        }
    }

    fn quads_for_subject_object_graph(&self, subject: &EncodedTerm, object: &EncodedTerm, graph_name: &EncodedTerm) -> (r: Result<
        ChainedDecodingQuadIterator,
        std::io::Error,
    >)
        requires
            subject.wf(),
            object.wf(),
            graph_name.wf(),
        ensures
            self@.inv() ==> (r matches Ok(it) ==> (it@.no_duplicates() && default_first(it@) && (forall|q: QuadModel|
                #[trigger] it@.contains(q) <==> (self@.contains_quad(q) && q.wf()
                    && q.subject == subject@ && q.object == object@ && q.graph_name == graph_name@)))),
    {
        if graph_name.is_default_graph() {
            let prefix = encode_term_pair(object, subject);
            let d = inner_quads(&self.dosp, prefix.as_slice(), QuadEncoding::Dosp)?;
            let it = ChainedDecodingQuadIterator::new(d);
            proof {
                if self@.inv() {
                    assert forall|q: QuadModel| quad_wf_for(QuadEncoding::Dosp, q) implies (
                    starts_with(prefix@, spec_quad_key(QuadEncoding::Dosp, q)) <==> (
                    q.object == object@ && q.subject == subject@)) by {
                        crate::binary_encoder::lemma_prefix2_of_key3(object@, subject@, q.object, q.subject, q.predicate);
                    }
                    assert forall|i: int, j: int|
                        0 <= i < j < it@.len() && ((it@[j]).graph_name is DefaultGraph) implies (
                    it@[i]).graph_name is DefaultGraph by {
                        assert(it@.contains(it@[i]));
                        assert(it@.contains(it@[j]));
                    }
                    assert(default_first(it@));
                    assert(forall|q: QuadModel| #[trigger] it@.contains(q) <==> (
                    self@.contains_quad(q) && q.wf() && q.subject == subject@ && q.object == object@ && q.graph_name == graph_name@));
                }
            }
            Ok(it)
        } else {
            let prefix = encode_term_triple(graph_name, object, subject);
            let n = inner_quads(&self.gosp, prefix.as_slice(), QuadEncoding::Gosp)?;
            let it = ChainedDecodingQuadIterator::new(n);
            proof {
                if self@.inv() {
                    assert forall|q: QuadModel| quad_wf_for(QuadEncoding::Gosp, q) implies (
                    starts_with(prefix@, spec_quad_key(QuadEncoding::Gosp, q)) <==> (
                    q.graph_name == graph_name@ && q.object == object@ && q.subject == subject@)) by {
                        crate::binary_encoder::lemma_prefix3_of_key4(graph_name@, object@, subject@, q.graph_name, q.object, q.subject, q.predicate);
                    }
                    assert forall|i: int, j: int|
                        0 <= i < j < it@.len() && ((it@[j]).graph_name is DefaultGraph) implies (
                    it@[i]).graph_name is DefaultGraph by {
                        assert(it@.contains(it@[i]));
                        assert(it@.contains(it@[j]));
                    }
                    assert(default_first(it@));
                    assert(forall|q: QuadModel| #[trigger] it@.contains(q) <==> (
                    self@.contains_quad(q) && q.wf() && q.subject == subject@ && q.object == object@ && q.graph_name == graph_name@));
                }
            }
            Ok(it)
        }
    }

    fn quads_for_predicate_graph(&self, predicate: &EncodedTerm, graph_name: &EncodedTerm) -> (r: Result<
        ChainedDecodingQuadIterator,
        std::io::Error,
    >)
        requires
            predicate.wf(),
            graph_name.wf(),
        ensures
            self@.inv() ==> (r matches Ok(it) ==> (it@.no_duplicates() && default_first(it@) && (forall|q: QuadModel|
                #[trigger] it@.contains(q) <==> (self@.contains_quad(q) && q.wf()
                    && q.predicate == predicate@ && q.graph_name == graph_name@)))),
    {
        if graph_name.is_default_graph() {
            let prefix = encode_term(predicate);
            let d = inner_quads(&self.dpos, prefix.as_slice(), QuadEncoding::Dpos)?;
            let it = ChainedDecodingQuadIterator::new(d);
            proof {
                if self@.inv() {
                    assert forall|q: QuadModel| quad_wf_for(QuadEncoding::Dpos, q) implies (
                    starts_with(prefix@, spec_quad_key(QuadEncoding::Dpos, q)) <==> (
                    q.predicate == predicate@)) by {
                        crate::binary_encoder::lemma_prefix1_of_key3(predicate@, q.predicate, q.object, q.subject);
                    }
                    assert forall|i: int, j: int|
                        0 <= i < j < it@.len() && ((it@[j]).graph_name is DefaultGraph) implies (
                    it@[i]).graph_name is DefaultGraph by {
                        assert(it@.contains(it@[i]));
                        assert(it@.contains(it@[j]));
                    }
                    assert(default_first(it@));
                    assert(forall|q: QuadModel| #[trigger] it@.contains(q) <==> (
                    self@.contains_quad(q) && q.wf() && q.predicate == predicate@ && q.graph_name == graph_name@));
                }
            }
            Ok(it)
        } else {
            let prefix = encode_term_pair(graph_name, predicate);
            let n = inner_quads(&self.gpos, prefix.as_slice(), QuadEncoding::Gpos)?;
            let it = ChainedDecodingQuadIterator::new(n);
            proof {
                if self@.inv() {
                    assert forall|q: QuadModel| quad_wf_for(QuadEncoding::Gpos, q) implies (
                    starts_with(prefix@, spec_quad_key(QuadEncoding::Gpos, q)) <==> (
                    q.graph_name == graph_name@ && q.predicate == predicate@)) by {
                        crate::binary_encoder::lemma_prefix2_of_key4(graph_name@, predicate@, q.graph_name, q.predicate, q.object, q.subject);
                    }
                    assert forall|i: int, j: int|
                        0 <= i < j < it@.len() && ((it@[j]).graph_name is DefaultGraph) implies (
                    it@[i]).graph_name is DefaultGraph by {
                        assert(it@.contains(it@[i]));
                        assert(it@.contains(it@[j]));
                    }
                    assert(default_first(it@));
                    assert(forall|q: QuadModel| #[trigger] it@.contains(q) <==> (
                    self@.contains_quad(q) && q.wf() && q.predicate == predicate@ && q.graph_name == graph_name@));
                }
            }
            Ok(it)
        }
    }

    fn quads_for_predicate_object_graph(&self, predicate: &EncodedTerm, object: &EncodedTerm, graph_name: &EncodedTerm) -> (r: Result<
        ChainedDecodingQuadIterator,
        std::io::Error,
    >)
        requires
            predicate.wf(),
            object.wf(),
            graph_name.wf(),
        ensures
            self@.inv() ==> (r matches Ok(it) ==> (it@.no_duplicates() && default_first(it@) && (forall|q: QuadModel|
                #[trigger] it@.contains(q) <==> (self@.contains_quad(q) && q.wf()
                    && q.predicate == predicate@ && q.object == object@ && q.graph_name == graph_name@)))),
    {
        if graph_name.is_default_graph() {
            let prefix = encode_term_pair(predicate, object);
            let d = inner_quads(&self.dpos, prefix.as_slice(), QuadEncoding::Dpos)?;
            let it = ChainedDecodingQuadIterator::new(d);
            proof {
                if self@.inv() {
                    assert forall|q: QuadModel| quad_wf_for(QuadEncoding::Dpos, q) implies (
                    starts_with(prefix@, spec_quad_key(QuadEncoding::Dpos, q)) <==> (
                    q.predicate == predicate@ && q.object == object@)) by {
                        crate::binary_encoder::lemma_prefix2_of_key3(predicate@, object@, q.predicate, q.object, q.subject);
                    }
                    assert forall|i: int, j: int|
                        0 <= i < j < it@.len() && ((it@[j]).graph_name is DefaultGraph) implies (
                    it@[i]).graph_name is DefaultGraph by {
                        assert(it@.contains(it@[i]));
                        assert(it@.contains(it@[j]));
                    }
                    assert(default_first(it@));
                    assert(forall|q: QuadModel| #[trigger] it@.contains(q) <==> (
                    self@.contains_quad(q) && q.wf() && q.predicate == predicate@ && q.object == object@ && q.graph_name == graph_name@));
                }
            }
            Ok(it)
        } else {
            let prefix = encode_term_triple(graph_name, predicate, object);
            let n = inner_quads(&self.gpos, prefix.as_slice(), QuadEncoding::Gpos)?;
            let it = ChainedDecodingQuadIterator::new(n);
            proof {
                if self@.inv() {
                    assert forall|q: QuadModel| quad_wf_for(QuadEncoding::Gpos, q) implies (
                    starts_with(prefix@, spec_quad_key(QuadEncoding::Gpos, q)) <==> (
                    q.graph_name == graph_name@ && q.predicate == predicate@ && q.object == object@)) by {
                        crate::binary_encoder::lemma_prefix3_of_key4(graph_name@, predicate@, object@, q.graph_name, q.predicate, q.object, q.subject);
                    }
                    assert forall|i: int, j: int|
                        0 <= i < j < it@.len() && ((it@[j]).graph_name is DefaultGraph) implies (
                    it@[i]).graph_name is DefaultGraph by {
                        assert(it@.contains(it@[i]));
                        assert(it@.contains(it@[j]));
                    }
                    assert(default_first(it@));
                    assert(forall|q: QuadModel| #[trigger] it@.contains(q) <==> (
                    self@.contains_quad(q) && q.wf() && q.predicate == predicate@ && q.object == object@ && q.graph_name == graph_name@));
                }
            }
            Ok(it)
        }
    }

    fn quads_for_object_graph(&self, object: &EncodedTerm, graph_name: &EncodedTerm) -> (r: Result<
        ChainedDecodingQuadIterator,
        std::io::Error,
    >)
        requires
            object.wf(),
            graph_name.wf(),
        ensures
            self@.inv() ==> (r matches Ok(it) ==> (it@.no_duplicates() && default_first(it@) && (forall|q: QuadModel|
                #[trigger] it@.contains(q) <==> (self@.contains_quad(q) && q.wf()
                    && q.object == object@ && q.graph_name == graph_name@)))),
    {
        if graph_name.is_default_graph() {
            let prefix = encode_term(object);
            let d = inner_quads(&self.dosp, prefix.as_slice(), QuadEncoding::Dosp)?;
            let it = ChainedDecodingQuadIterator::new(d);
            proof {
                if self@.inv() {
                    assert forall|q: QuadModel| quad_wf_for(QuadEncoding::Dosp, q) implies (
                    starts_with(prefix@, spec_quad_key(QuadEncoding::Dosp, q)) <==> (
                    q.object == object@)) by {
                        crate::binary_encoder::lemma_prefix1_of_key3(object@, q.object, q.subject, q.predicate);
                    }
                    assert forall|i: int, j: int|
                        0 <= i < j < it@.len() && ((it@[j]).graph_name is DefaultGraph) implies (
                    it@[i]).graph_name is DefaultGraph by {
                        assert(it@.contains(it@[i]));
                        assert(it@.contains(it@[j]));
                    }
                    assert(default_first(it@));
                    assert(forall|q: QuadModel| #[trigger] it@.contains(q) <==> (
                    self@.contains_quad(q) && q.wf() && q.object == object@ && q.graph_name == graph_name@));
                }
            }
            Ok(it)
        } else {
            let prefix = encode_term_pair(graph_name, object);
            let n = inner_quads(&self.gosp, prefix.as_slice(), QuadEncoding::Gosp)?;
            let it = ChainedDecodingQuadIterator::new(n);
            proof {
                if self@.inv() {
                    assert forall|q: QuadModel| quad_wf_for(QuadEncoding::Gosp, q) implies (
                    starts_with(prefix@, spec_quad_key(QuadEncoding::Gosp, q)) <==> (
                    q.graph_name == graph_name@ && q.object == object@)) by {
                        crate::binary_encoder::lemma_prefix2_of_key4(graph_name@, object@, q.graph_name, q.object, q.subject, q.predicate);
                    }
                    assert forall|i: int, j: int|
                        0 <= i < j < it@.len() && ((it@[j]).graph_name is DefaultGraph) implies (
                    it@[i]).graph_name is DefaultGraph by {
                        assert(it@.contains(it@[i]));
                        assert(it@.contains(it@[j]));
                    }
                    assert(default_first(it@));
                    assert(forall|q: QuadModel| #[trigger] it@.contains(q) <==> (
                    self@.contains_quad(q) && q.wf() && q.object == object@ && q.graph_name == graph_name@));
                }
            }
            Ok(it)
        }
    }

}

/// `q` agrees with every bound position of the pattern.
pub open spec fn pattern_matches(
    q: QuadModel,
    subject: Option<&EncodedTerm>,
    predicate: Option<&EncodedTerm>,
    object: Option<&EncodedTerm>,
    graph_name: Option<&EncodedTerm>,
) -> bool {
    &&& match subject {
        Some(t) => q.subject == t@,
        None => true,
    }
    &&& match predicate {
        Some(t) => q.predicate == t@,
        None => true,
    }
    &&& match object {
        Some(t) => q.object == t@,
        None => true,
    }
    &&& match graph_name {
        Some(t) => q.graph_name == t@,
        None => true,
    }
}

/// Every bound position of a pattern is a well-formed term.
pub open spec fn pattern_wf(
    subject: Option<&EncodedTerm>,
    predicate: Option<&EncodedTerm>,
    object: Option<&EncodedTerm>,
    graph_name: Option<&EncodedTerm>,
) -> bool {
    &&& match subject {
        Some(t) => t.wf(),
        None => true,
    }
    &&& match predicate {
        Some(t) => t.wf(),
        None => true,
    }
    &&& match object {
        Some(t) => t.wf(),
        None => true,
    }
    &&& match graph_name {
        Some(t) => t.wf(),
        None => true,
    }
}

impl Storage {
    /// All stored quads that agree with the bound positions: one prefix scan
    /// of the keyspace whose order starts with those positions (both graph
    /// classes when the graph is unbound, default graph first).
    pub fn quads_for_pattern(
        &self,
        subject: Option<&EncodedTerm>,
        predicate: Option<&EncodedTerm>,
        object: Option<&EncodedTerm>,
        graph_name: Option<&EncodedTerm>,
    ) -> (r: Result<ChainedDecodingQuadIterator, std::io::Error>)
        requires
            pattern_wf(subject, predicate, object, graph_name),
        ensures
            self@.inv() ==> (r matches Ok(it) ==> (it@.no_duplicates() && default_first(it@) && (forall|q: QuadModel|
                #[trigger] it@.contains(q) <==> (self@.contains_quad(q) && q.wf()
                    && pattern_matches(q, subject, predicate, object, graph_name))))),
    {
        match subject {
            Some(s) => match predicate {
                Some(p) => match object {
                    Some(o) => match graph_name {
                        Some(g) => self.quads_for_subject_predicate_object_graph(s, p, o, g),
                        None => self.quads_for_subject_predicate_object(s, p, o),
                    },
                    None => match graph_name {
                        Some(g) => self.quads_for_subject_predicate_graph(s, p, g),
                        None => self.quads_for_subject_predicate(s, p),
                    },
                },
                None => match object {
                    Some(o) => match graph_name {
                        Some(g) => self.quads_for_subject_object_graph(s, o, g),
                        None => self.quads_for_subject_object(s, o),
                    },
                    None => match graph_name {
                        Some(g) => self.quads_for_subject_graph(s, g),
                        None => self.quads_for_subject(s),
                    },
                },
            },
            None => match predicate {
                Some(p) => match object {
                    Some(o) => match graph_name {
                        Some(g) => self.quads_for_predicate_object_graph(p, o, g),
                        None => self.quads_for_predicate_object(p, o),
                    },
                    None => match graph_name {
                        Some(g) => self.quads_for_predicate_graph(p, g),
                        None => self.quads_for_predicate(p),
                    },
                },
                None => match object {
                    Some(o) => match graph_name {
                        Some(g) => self.quads_for_object_graph(o, g),
                        None => self.quads_for_object(o),
                    },
                    None => match graph_name {
                        Some(g) => self.quads_for_graph(g),
                        None => self.quads(),
                    },
                },
            },
        }
    }

    /// The graphs listed in the registry, decoded.
    pub fn named_graphs(&self) -> (r: Result<DecodingGraphIterator, std::io::Error>)
        ensures
            self@.inv() ==> (r matches Ok(it) ==> (it@.no_duplicates() && (forall|t: TermModel|
                #[trigger] it@.contains(t) <==> (t.wf() && self@.contains_graph(t))) && (forall|
                i: int,
                j: int,
            |
                0 <= i < j < it@.len() ==> lex_lt(
                    spec_write_term(#[trigger] it@[i]),
                    spec_write_term(#[trigger] it@[j]),
                )))),
    {
        let prefix: Vec<u8> = Vec::new();
        let keys = tree_scan_prefix(&self.graphs, prefix.as_slice())?;
        let ghost n = keys@.len();
        let mut rev: Vec<EncodedTerm> = Vec::new();
        let mut i: usize = keys.len();
        while i > 0
            invariant
                i <= n,
                n == keys@.len(),
                rev@.len() == n - i,
                forall|jj: int| 0 <= jj < rev@.len() ==> match spec_decode_term(
                    (#[trigger] keys@[n - 1 - jj])@,
                ) {
                    Some(p) => rev@[jj]@ == p.0 && p.1 == keys@[n - 1 - jj]@.len(),
                    None => false,
                },
            decreases i,
        {
            i = i - 1;
            let key = &keys[i];
            proof {
                assert(key@.skip(0) =~= key@);
            }
            match crate::binary_encoder::decode_term(key.as_slice(), 0) {
                Some((term, next)) => {
                    if next == key.len() {
                        let ghost rev0 = rev@;
                        rev.push(term);
                        proof {
                            let jj = rev@.len() - 1;
                            assert(n - 1 - jj == i);
                            assert(rev@[jj] == term);
                            assert(forall|k2: int| 0 <= k2 < rev0.len() ==> rev@[k2] == rev0[k2]);
                        }
                    } else {
                        return Err(crate::backend::invalid_data_error(
                            "a stored graph key does not decode",
                        ));
                    }
                },
                None => {
                    return Err(crate::backend::invalid_data_error(
                        "a stored graph key does not decode",
                    ));
                },
            }
        }
        let it = DecodingGraphIterator { rev_terms: rev };
        proof {
            let v = it@;
            assert(v.len() == n);
            assert forall|jj: int| 0 <= jj < n implies match spec_decode_term(
                (#[trigger] keys@[jj])@,
            ) {
                Some(p) => v[jj] == p.0 && p.1 == keys@[jj]@.len(),
                None => false,
            } by {
                let kk = n - 1 - jj;
                assert(0 <= kk < rev@.len());
                assert(match spec_decode_term((#[trigger] keys@[n - 1 - kk])@) {
                    Some(p) => rev@[kk]@ == p.0 && p.1 == keys@[n - 1 - kk]@.len(),
                    None => false,
                });
                assert(v[jj] == rev@[kk]@);
            }
            if self@.inv() {
                assert forall|k: Seq<u8>| starts_with(prefix@, k) by {
                    assert(prefix@ =~= k.subrange(0, 0));
                }
                assert forall|t: TermModel| #[trigger] v.contains(t) <==> (t.wf()
                    && self@.contains_graph(t)) by {
                    if v.contains(t) {
                        let jj = choose|jj: int| 0 <= jj < v.len() && v[jj] == t;
                        let k = keys@[jj]@;
                        assert(self@.graphs.dom().contains(k));
                        let t2 = choose|t2: TermModel|
                            t2.wf() && k == #[trigger] spec_write_term(t2);
                        crate::binary_encoder::lemma_decode_write_term(t2, Seq::<u8>::empty());
                        assert(spec_write_term(t2) + Seq::<u8>::empty() =~= spec_write_term(t2));
                        assert(t == t2);
                    }
                    if t.wf() && self@.contains_graph(t) {
                        let k = spec_write_term(t);
                        let ii = choose|ii: int|
                            0 <= ii < keys@.len() && #[trigger] keys@[ii]@ == k;
                        crate::binary_encoder::lemma_decode_write_term(t, Seq::<u8>::empty());
                        assert(spec_write_term(t) + Seq::<u8>::empty() =~= spec_write_term(t));
                        assert(v[ii] == t);
                        assert(v.contains(t));
                    }
                }
                assert forall|ii: int, jj: int| 0 <= ii < jj < v.len() implies v[ii] != v[jj] by {
                    let ki = keys@[ii]@;
                    let kj = keys@[jj]@;
                    let ti = choose|ti: TermModel| ti.wf() && ki == #[trigger] spec_write_term(ti);
                    let tj = choose|tj: TermModel| tj.wf() && kj == #[trigger] spec_write_term(tj);
                    crate::binary_encoder::lemma_decode_write_term(ti, Seq::<u8>::empty());
                    crate::binary_encoder::lemma_decode_write_term(tj, Seq::<u8>::empty());
                    assert(spec_write_term(ti) + Seq::<u8>::empty() =~= spec_write_term(ti));
                    assert(spec_write_term(tj) + Seq::<u8>::empty() =~= spec_write_term(tj));
                    assert(v[ii] == ti && v[jj] == tj);
                }
                assert(v.no_duplicates());
                assert forall|ii: int, jj: int| 0 <= ii < jj < v.len() implies lex_lt(
                    spec_write_term(#[trigger] v[ii]),
                    spec_write_term(#[trigger] v[jj]),
                ) by {
                    let ki = keys@[ii]@;
                    let kj = keys@[jj]@;
                    let ti = choose|ti: TermModel| ti.wf() && ki == #[trigger] spec_write_term(ti);
                    let tj = choose|tj: TermModel| tj.wf() && kj == #[trigger] spec_write_term(tj);
                    crate::binary_encoder::lemma_decode_write_term(ti, Seq::<u8>::empty());
                    crate::binary_encoder::lemma_decode_write_term(tj, Seq::<u8>::empty());
                    assert(spec_write_term(ti) + Seq::<u8>::empty() =~= spec_write_term(ti));
                    assert(spec_write_term(tj) + Seq::<u8>::empty() =~= spec_write_term(tj));
                    assert(v[ii] == ti && v[jj] == tj);
                    assert(lex_lt(ki, kj));
                }
            }
        }
        Ok(it)
    }
}


/// Inserting one well-formed key keeps a keyspace well formed.
proof fn lemma_quad_tree_ok_insert(e: QuadEncoding, m: Map<Seq<u8>, Seq<u8>>, q: QuadModel)
    requires
        quad_tree_ok(e, m),
        quad_wf_for(e, q),
    ensures
        quad_tree_ok(e, m.insert(spec_quad_key(e, q), Seq::<u8>::empty())),
{
    let m1 = m.insert(spec_quad_key(e, q), Seq::<u8>::empty());
    assert(m1.dom() =~= m.dom().insert(spec_quad_key(e, q)));
    assert(m1.dom().finite());
    assert forall|k: Seq<u8>| #[trigger] m1.dom().contains(k) implies (exists|q2: QuadModel|
        quad_wf_for(e, q2) && k == #[trigger] spec_quad_key(e, q2)) && m1[k]
        == Seq::<u8>::empty() by {
        if k == spec_quad_key(e, q) {
            assert(quad_wf_for(e, q) && k == spec_quad_key(e, q));
        } else {
            assert(m.dom().contains(k));
        }
    }
}

impl StorageModel {
    /// Law: inserting a well-formed quad preserves the cross-keyspace
    /// invariant.
    pub proof fn lemma_insert_preserves_inv(self, q: QuadModel)
        requires
            self.inv(),
            q.wf(),
        ensures
            self.with_insert(q).inv(),
    {
        let m1 = self.with_insert(q);
        let empty_v = Seq::<u8>::empty();
        if q.graph_name is DefaultGraph {
            lemma_quad_tree_ok_insert(QuadEncoding::Dspo, self.dspo, q);
            if !self.contains_dquad(q) {
                lemma_quad_tree_ok_insert(QuadEncoding::Dpos, self.dpos, q);
                lemma_quad_tree_ok_insert(QuadEncoding::Dosp, self.dosp, q);
            }
            assert forall|q2: QuadModel| q2.wf_default() implies {
                let inn = m1.dspo.dom().contains(#[trigger] spec_quad_key(
                    QuadEncoding::Dspo,
                    q2,
                ));
                &&& m1.dpos.dom().contains(spec_quad_key(QuadEncoding::Dpos, q2)) == inn
                &&& m1.dosp.dom().contains(spec_quad_key(QuadEncoding::Dosp, q2)) == inn
            } by {
                if spec_quad_key(QuadEncoding::Dspo, q2) == spec_quad_key(QuadEncoding::Dspo, q) {
                    crate::binary_encoder::lemma_quad_key_injective(QuadEncoding::Dspo, q2, q);
                }
                if spec_quad_key(QuadEncoding::Dpos, q2) == spec_quad_key(QuadEncoding::Dpos, q) {
                    crate::binary_encoder::lemma_quad_key_injective(QuadEncoding::Dpos, q2, q);
                }
                if spec_quad_key(QuadEncoding::Dosp, q2) == spec_quad_key(QuadEncoding::Dosp, q) {
                    crate::binary_encoder::lemma_quad_key_injective(QuadEncoding::Dosp, q2, q);
                }
                if self.contains_dquad(q) && q2 != q {
                    assert(m1.dpos == self.dpos && m1.dosp == self.dosp);
                }
            }
            assert(m1.named_orders_agree());
            assert(m1.registry_complete());
            assert(m1.inv());
        } else {
            lemma_quad_tree_ok_insert(QuadEncoding::Spog, self.spog, q);
            if !self.contains_nquad(q) {
                lemma_quad_tree_ok_insert(QuadEncoding::Posg, self.posg, q);
                lemma_quad_tree_ok_insert(QuadEncoding::Ospg, self.ospg, q);
                lemma_quad_tree_ok_insert(QuadEncoding::Gspo, self.gspo, q);
                lemma_quad_tree_ok_insert(QuadEncoding::Gpos, self.gpos, q);
                lemma_quad_tree_ok_insert(QuadEncoding::Gosp, self.gosp, q);
                assert(m1.graphs.dom() =~= self.graphs.dom().insert(
                    spec_write_term(q.graph_name),
                ));
                assert forall|k: Seq<u8>| #[trigger] m1.graphs.dom().contains(k) implies (exists|
                    t: TermModel,
                | t.wf() && k == #[trigger] spec_write_term(t)) && m1.graphs[k] == empty_v by {
                    if k == spec_write_term(q.graph_name) {
                        assert(q.graph_name.wf() && k == spec_write_term(q.graph_name));
                    } else {
                        assert(self.graphs.dom().contains(k));
                    }
                }
                assert(m1.graphs_ok());
            }
            assert forall|q2: QuadModel| q2.wf_named() implies {
                let inn = m1.spog.dom().contains(#[trigger] spec_quad_key(
                    QuadEncoding::Spog,
                    q2,
                ));
                &&& m1.posg.dom().contains(spec_quad_key(QuadEncoding::Posg, q2)) == inn
                &&& m1.ospg.dom().contains(spec_quad_key(QuadEncoding::Ospg, q2)) == inn
                &&& m1.gspo.dom().contains(spec_quad_key(QuadEncoding::Gspo, q2)) == inn
                &&& m1.gpos.dom().contains(spec_quad_key(QuadEncoding::Gpos, q2)) == inn
                &&& m1.gosp.dom().contains(spec_quad_key(QuadEncoding::Gosp, q2)) == inn
            } by {
                if spec_quad_key(QuadEncoding::Spog, q2) == spec_quad_key(QuadEncoding::Spog, q) {
                    crate::binary_encoder::lemma_quad_key_injective(QuadEncoding::Spog, q2, q);
                }
                if spec_quad_key(QuadEncoding::Posg, q2) == spec_quad_key(QuadEncoding::Posg, q) {
                    crate::binary_encoder::lemma_quad_key_injective(QuadEncoding::Posg, q2, q);
                }
                if spec_quad_key(QuadEncoding::Ospg, q2) == spec_quad_key(QuadEncoding::Ospg, q) {
                    crate::binary_encoder::lemma_quad_key_injective(QuadEncoding::Ospg, q2, q);
                }
                if spec_quad_key(QuadEncoding::Gspo, q2) == spec_quad_key(QuadEncoding::Gspo, q) {
                    crate::binary_encoder::lemma_quad_key_injective(QuadEncoding::Gspo, q2, q);
                }
                if spec_quad_key(QuadEncoding::Gpos, q2) == spec_quad_key(QuadEncoding::Gpos, q) {
                    crate::binary_encoder::lemma_quad_key_injective(QuadEncoding::Gpos, q2, q);
                }
                if spec_quad_key(QuadEncoding::Gosp, q2) == spec_quad_key(QuadEncoding::Gosp, q) {
                    crate::binary_encoder::lemma_quad_key_injective(QuadEncoding::Gosp, q2, q);
                }
                if self.contains_nquad(q) && q2 != q {
                    assert(m1.posg == self.posg);
                }
            }
            assert forall|q2: QuadModel|
                q2.wf_named() && m1.spog.dom().contains(#[trigger] spec_quad_key(
                    QuadEncoding::Spog,
                    q2,
                )) implies m1.graphs.dom().contains(spec_write_term(q2.graph_name)) by {
                if spec_quad_key(QuadEncoding::Spog, q2) == spec_quad_key(QuadEncoding::Spog, q) {
                    crate::binary_encoder::lemma_quad_key_injective(QuadEncoding::Spog, q2, q);
                    if self.contains_nquad(q) {
                        assert(self.graphs.dom().contains(spec_write_term(q2.graph_name)));
                    }
                } else {
                    assert(self.spog.dom().contains(spec_quad_key(QuadEncoding::Spog, q2)));
                }
            }
            assert(m1.default_orders_agree());
            assert(m1.inv());
        }
    }

    /// Law: inserting `q` makes exactly `q` present on top of what was there;
    /// for a named-graph quad its graph enters the registry, and no other
    /// graph does.
    pub proof fn lemma_insert_effect(self, q: QuadModel)
        requires
            self.inv(),
            q.wf(),
        ensures
            forall|q2: QuadModel| q2.wf() ==> (#[trigger] self.with_insert(q).contains_quad(q2)
                == (self.contains_quad(q2) || q2 == q)),
            forall|t: TermModel| t.wf() ==> (#[trigger] self.with_insert(q).contains_graph(t) == (
            self.contains_graph(t) || (!(q.graph_name is DefaultGraph) && t == q.graph_name))),
            self.with_insert(q).id2str == self.id2str,
            self.with_insert(q).default == self.default,
    {
        let m1 = self.with_insert(q);
        assert forall|q2: QuadModel| q2.wf() implies (#[trigger] m1.contains_quad(q2) == (
        self.contains_quad(q2) || q2 == q)) by {
            if q2.graph_name is DefaultGraph && q.graph_name is DefaultGraph {
                if spec_quad_key(QuadEncoding::Dspo, q2) == spec_quad_key(QuadEncoding::Dspo, q) {
                    crate::binary_encoder::lemma_quad_key_injective(QuadEncoding::Dspo, q2, q);
                }
            }
            if !(q2.graph_name is DefaultGraph) && !(q.graph_name is DefaultGraph) {
                if spec_quad_key(QuadEncoding::Spog, q2) == spec_quad_key(QuadEncoding::Spog, q) {
                    crate::binary_encoder::lemma_quad_key_injective(QuadEncoding::Spog, q2, q);
                }
            }
        }
        assert forall|t: TermModel| t.wf() implies (#[trigger] m1.contains_graph(t) == (
        self.contains_graph(t) || (!(q.graph_name is DefaultGraph) && t == q.graph_name))) by {
            if !(q.graph_name is DefaultGraph) && !self.contains_nquad(q) {
                if spec_write_term(t) == spec_write_term(q.graph_name) {
                    crate::binary_encoder::lemma_write_term_peel(
                        t,
                        q.graph_name,
                        Seq::<u8>::empty(),
                        Seq::<u8>::empty(),
                    );
                    assert(spec_write_term(t) + Seq::<u8>::empty() =~= spec_write_term(t));
                    assert(spec_write_term(q.graph_name) + Seq::<u8>::empty() =~= spec_write_term(
                        q.graph_name,
                    ));
                }
            }
        }
    }

    /// Law: removing a well-formed quad preserves the cross-keyspace
    /// invariant.
    pub proof fn lemma_remove_preserves_inv(self, q: QuadModel)
        requires
            self.inv(),
            q.wf(),
        ensures
            self.with_remove(q).inv(),
    {
        let m1 = self.with_remove(q);
        if q.graph_name is DefaultGraph {
            if self.contains_dquad(q) {
                assert forall|q2: QuadModel| q2.wf_default() implies {
                    let inn = m1.dspo.dom().contains(#[trigger] spec_quad_key(
                        QuadEncoding::Dspo,
                        q2,
                    ));
                    &&& m1.dpos.dom().contains(spec_quad_key(QuadEncoding::Dpos, q2)) == inn
                    &&& m1.dosp.dom().contains(spec_quad_key(QuadEncoding::Dosp, q2)) == inn
                } by {
                    if spec_quad_key(QuadEncoding::Dspo, q2) == spec_quad_key(QuadEncoding::Dspo, q) {
                        crate::binary_encoder::lemma_quad_key_injective(QuadEncoding::Dspo, q2, q);
                    }
                    if spec_quad_key(QuadEncoding::Dpos, q2) == spec_quad_key(QuadEncoding::Dpos, q) {
                        crate::binary_encoder::lemma_quad_key_injective(QuadEncoding::Dpos, q2, q);
                    }
                    if spec_quad_key(QuadEncoding::Dosp, q2) == spec_quad_key(QuadEncoding::Dosp, q) {
                        crate::binary_encoder::lemma_quad_key_injective(QuadEncoding::Dosp, q2, q);
                    }
                }
            }
        } else {
            if self.contains_nquad(q) {
                assert forall|q2: QuadModel| q2.wf_named() implies {
                    let inn = m1.spog.dom().contains(#[trigger] spec_quad_key(
                        QuadEncoding::Spog,
                        q2,
                    ));
                    &&& m1.posg.dom().contains(spec_quad_key(QuadEncoding::Posg, q2)) == inn
                    &&& m1.ospg.dom().contains(spec_quad_key(QuadEncoding::Ospg, q2)) == inn
                    &&& m1.gspo.dom().contains(spec_quad_key(QuadEncoding::Gspo, q2)) == inn
                    &&& m1.gpos.dom().contains(spec_quad_key(QuadEncoding::Gpos, q2)) == inn
                    &&& m1.gosp.dom().contains(spec_quad_key(QuadEncoding::Gosp, q2)) == inn
                } by {
                    if spec_quad_key(QuadEncoding::Spog, q2) == spec_quad_key(QuadEncoding::Spog, q) {
                        crate::binary_encoder::lemma_quad_key_injective(QuadEncoding::Spog, q2, q);
                    }
                    if spec_quad_key(QuadEncoding::Posg, q2) == spec_quad_key(QuadEncoding::Posg, q) {
                        crate::binary_encoder::lemma_quad_key_injective(QuadEncoding::Posg, q2, q);
                    }
                    if spec_quad_key(QuadEncoding::Ospg, q2) == spec_quad_key(QuadEncoding::Ospg, q) {
                        crate::binary_encoder::lemma_quad_key_injective(QuadEncoding::Ospg, q2, q);
                    }
                    if spec_quad_key(QuadEncoding::Gspo, q2) == spec_quad_key(QuadEncoding::Gspo, q) {
                        crate::binary_encoder::lemma_quad_key_injective(QuadEncoding::Gspo, q2, q);
                    }
                    if spec_quad_key(QuadEncoding::Gpos, q2) == spec_quad_key(QuadEncoding::Gpos, q) {
                        crate::binary_encoder::lemma_quad_key_injective(QuadEncoding::Gpos, q2, q);
                    }
                    if spec_quad_key(QuadEncoding::Gosp, q2) == spec_quad_key(QuadEncoding::Gosp, q) {
                        crate::binary_encoder::lemma_quad_key_injective(QuadEncoding::Gosp, q2, q);
                    }
                }
            }
        }
    }

    /// Law: removing `q` takes exactly `q` out and leaves the graph registry,
    /// the interner and the version keyspace unchanged.
    pub proof fn lemma_remove_effect(self, q: QuadModel)
        requires
            self.inv(),
            q.wf(),
        ensures
            forall|q2: QuadModel| q2.wf() ==> (#[trigger] self.with_remove(q).contains_quad(q2)
                == (self.contains_quad(q2) && q2 != q)),
            self.with_remove(q).graphs == self.graphs,
            self.with_remove(q).id2str == self.id2str,
            self.with_remove(q).default == self.default,
    {
        let m1 = self.with_remove(q);
        assert forall|q2: QuadModel| q2.wf() implies (#[trigger] m1.contains_quad(q2) == (
        self.contains_quad(q2) && q2 != q)) by {
            if q2.graph_name is DefaultGraph && q.graph_name is DefaultGraph {
                if spec_quad_key(QuadEncoding::Dspo, q2) == spec_quad_key(QuadEncoding::Dspo, q) {
                    crate::binary_encoder::lemma_quad_key_injective(QuadEncoding::Dspo, q2, q);
                }
            }
            if !(q2.graph_name is DefaultGraph) && !(q.graph_name is DefaultGraph) {
                if spec_quad_key(QuadEncoding::Spog, q2) == spec_quad_key(QuadEncoding::Spog, q) {
                    crate::binary_encoder::lemma_quad_key_injective(QuadEncoding::Spog, q2, q);
                }
            }
        }
    }

    /// Law: a second insert of the same quad changes nothing, and the quad is
    /// present after the first, so the second insert reports it as already
    /// present.
    pub proof fn lemma_insert_idempotent(self, q: QuadModel)
        requires
            q.wf(),
        ensures
            self.with_insert(q).contains_quad(q),
            self.with_insert(q).with_insert(q) == self.with_insert(q),
    {
        let m1 = self.with_insert(q);
        if q.graph_name is DefaultGraph {
            assert(m1.with_insert(q).dspo =~= m1.dspo);
            assert(m1.with_insert(q) =~= m1);
        } else {
            assert(m1.with_insert(q).spog =~= m1.spog);
            assert(m1.with_insert(q) =~= m1);
        }
    }

    /// Law: removing an absent quad changes nothing, and the remove reports
    /// it as absent.
    pub proof fn lemma_remove_absent(self, q: QuadModel)
        requires
            q.wf(),
            !self.contains_quad(q),
        ensures
            self.with_remove(q) == self,
    {
        if q.graph_name is DefaultGraph {
            assert(self.with_remove(q).dspo =~= self.dspo);
            assert(self.with_remove(q) =~= self);
        } else {
            assert(self.with_remove(q).spog =~= self.spog);
            assert(self.with_remove(q) =~= self);
        }
    }

    /// Law: under the invariant, a quad is either in every keyspace that
    /// applies to its graph class or in none of them.
    pub proof fn lemma_index_consistency(self, q: QuadModel)
        requires
            self.inv(),
            q.wf(),
        ensures
            q.graph_name is DefaultGraph ==> ({
                let inn = self.contains_quad(q);
                &&& self.dspo.dom().contains(spec_quad_key(QuadEncoding::Dspo, q)) == inn
                &&& self.dpos.dom().contains(spec_quad_key(QuadEncoding::Dpos, q)) == inn
                &&& self.dosp.dom().contains(spec_quad_key(QuadEncoding::Dosp, q)) == inn
            }),
            !(q.graph_name is DefaultGraph) ==> ({
                let inn = self.contains_quad(q);
                &&& self.spog.dom().contains(spec_quad_key(QuadEncoding::Spog, q)) == inn
                &&& self.posg.dom().contains(spec_quad_key(QuadEncoding::Posg, q)) == inn
                &&& self.ospg.dom().contains(spec_quad_key(QuadEncoding::Ospg, q)) == inn
                &&& self.gspo.dom().contains(spec_quad_key(QuadEncoding::Gspo, q)) == inn
                &&& self.gpos.dom().contains(spec_quad_key(QuadEncoding::Gpos, q)) == inn
                &&& self.gosp.dom().contains(spec_quad_key(QuadEncoding::Gosp, q)) == inn
            }),
            !(q.graph_name is DefaultGraph) && self.contains_quad(q)
                ==> self.contains_graph(q.graph_name),
    {
    }
}

impl Storage {
    /// Removes, quad by quad, every stored quad whose graph is `graph_name`;
    /// the registry, the interner and the version keyspace are untouched.
    fn remove_graph_quads(&mut self, graph_name: &EncodedTerm) -> (r: Result<
        (),
        std::io::Error,
    >)
        requires
            graph_name.wf(),
            old(self)@.inv(),
        ensures
            r matches Ok(_) ==> ({
                let m0 = old(self)@;
                let m1 = final(self)@;
                &&& m1.inv()
                &&& (forall|q: QuadModel| q.wf() && q.graph_name == graph_name@
                    ==> !(#[trigger] m1.contains_quad(q)))
                &&& (forall|q: QuadModel| q.wf() && q.graph_name != graph_name@
                    ==> #[trigger] m1.contains_quad(q) == m0.contains_quad(q))
                &&& m1.graphs == m0.graphs
                &&& m1.id2str == m0.id2str
                &&& m1.default == m0.default
            }),
    {
        let mut iter = self.quads_for_graph(graph_name)?;
        let ghost m0 = self@;
        loop
            invariant
                graph_name.wf(),
                self@.inv(),
                forall|q: QuadModel| #[trigger] iter@.contains(q) ==> q.wf() && q.graph_name
                    == graph_name@,
                forall|q: QuadModel|
                    q.wf() && q.graph_name == graph_name@ && m0.contains_quad(q) ==> (
                    iter@.contains(q) || !(#[trigger] self@.contains_quad(q))),
                forall|q: QuadModel| q.wf() && q.graph_name != graph_name@
                    ==> #[trigger] self@.contains_quad(q) == m0.contains_quad(q),
                forall|q: QuadModel| q.wf() && #[trigger] self@.contains_quad(q)
                    ==> m0.contains_quad(q),
                self@.graphs == m0.graphs,
                self@.id2str == m0.id2str,
                self@.default == m0.default,
            ensures
                iter@.len() == 0,
                self@.inv(),
                forall|q: QuadModel|
                    q.wf() && q.graph_name == graph_name@ && m0.contains_quad(q) ==> (
                    iter@.contains(q) || !(#[trigger] self@.contains_quad(q))),
                forall|q: QuadModel| q.wf() && q.graph_name != graph_name@
                    ==> #[trigger] self@.contains_quad(q) == m0.contains_quad(q),
                forall|q: QuadModel| q.wf() && #[trigger] self@.contains_quad(q)
                    ==> m0.contains_quad(q),
                self@.graphs == m0.graphs,
                self@.id2str == m0.id2str,
                self@.default == m0.default,
            decreases iter@.len(),
        {
            let ghost it0 = iter@;
            let ghost m_prev = self@;
            match iter.next() {
                Some(quad) => {
                    proof {
                        assert(it0.contains(it0[0]));
                    }
                    self.remove(&quad)?;
                    proof {
                        m_prev.lemma_remove_preserves_inv(quad@);
                        m_prev.lemma_remove_effect(quad@);
                        assert forall|q2: QuadModel| #[trigger] iter@.contains(q2) implies
                            it0.contains(q2) by {
                            let k = choose|k: int| 0 <= k < iter@.len() && iter@[k] == q2;
                            assert(it0[k + 1] == q2);
                        }
                        assert forall|q2: QuadModel| #[trigger] it0.contains(q2) implies (q2
                            == it0[0] || iter@.contains(q2)) by {
                            let k = choose|k: int| 0 <= k < it0.len() && it0[k] == q2;
                            if k > 0 {
                                assert(iter@[k - 1] == q2);
                                assert(iter@.contains(q2));
                            }
                        }
                    }
                },
                None => {
                    break;
                },
            }
        }
        Ok(())
    }

    /// Empties `graph_name`: for the default graph its three keyspaces are
    /// truncated; a named graph is drained quad by quad, and its registry
    /// entry is kept, so the graph stays listed even when empty.
    pub fn clear_graph(&mut self, graph_name: &EncodedTerm) -> (r: Result<(), std::io::Error>)
        requires
            graph_name.wf(),
            old(self)@.inv(),
        ensures
            r matches Ok(_) ==> ({
                let m0 = old(self)@;
                let m1 = final(self)@;
                &&& m1.inv()
                &&& (forall|q: QuadModel| q.wf() && q.graph_name == graph_name@
                    ==> !(#[trigger] m1.contains_quad(q)))
                &&& (forall|q: QuadModel| q.wf() && q.graph_name != graph_name@
                    ==> #[trigger] m1.contains_quad(q) == m0.contains_quad(q))
                &&& m1.graphs == m0.graphs
                &&& m1.id2str == m0.id2str
                &&& m1.default == m0.default
            }),
    {
        if graph_name.is_default_graph() {
            tree_clear(&mut self.dspo)?;
            tree_clear(&mut self.dpos)?;
            tree_clear(&mut self.dosp)?;
            Ok(())
        } else {
            self.remove_graph_quads(graph_name)
        }
    }

    /// Drains every quad of `graph_name` and then deletes the graph's
    /// registry entry; returns whether the registry listed it.
    pub fn remove_named_graph(&mut self, graph_name: &EncodedTerm) -> (r: Result<
        bool,
        std::io::Error,
    >)
        requires
            graph_name.wf(),
            old(self)@.inv(),
        ensures
            r matches Ok(was_in) ==> ({
                let m0 = old(self)@;
                let m1 = final(self)@;
                &&& m1.inv()
                &&& was_in == m0.contains_graph(graph_name@)
                &&& (forall|q: QuadModel| q.wf() && q.graph_name == graph_name@
                    ==> !(#[trigger] m1.contains_quad(q)))
                &&& (forall|q: QuadModel| q.wf() && q.graph_name != graph_name@
                    ==> #[trigger] m1.contains_quad(q) == m0.contains_quad(q))
                &&& m1.graphs == m0.graphs.remove(spec_write_term(graph_name@))
                &&& m1.id2str == m0.id2str
                &&& m1.default == m0.default
            }),
    {
        self.remove_graph_quads(graph_name)?;
        let ghost m_mid = self@;
        let key = encode_term(graph_name);
        let r = tree_remove(&mut self.graphs, key.as_slice());
        proof {
            if r is Ok {
                let m1 = self@;
                assert(m1.graphs.dom() =~= m_mid.graphs.dom().remove(spec_write_term(
                    graph_name@,
                )));
                assert forall|k: Seq<u8>| #[trigger] m1.graphs.dom().contains(k) implies (exists|
                    t: TermModel,
                | t.wf() && k == #[trigger] spec_write_term(t)) && m1.graphs[k]
                    == Seq::<u8>::empty() by {
                    assert(m_mid.graphs.dom().contains(k));
                }
                assert forall|q2: QuadModel|
                    q2.wf_named() && m1.spog.dom().contains(#[trigger] spec_quad_key(
                        QuadEncoding::Spog,
                        q2,
                    )) implies m1.graphs.dom().contains(spec_write_term(q2.graph_name)) by {
                    assert(m_mid.contains_quad(q2));
                    assert(q2.graph_name != graph_name@);
                    if spec_write_term(q2.graph_name) == spec_write_term(graph_name@) {
                        crate::binary_encoder::lemma_write_term_injective(
                            q2.graph_name,
                            graph_name@,
                        );
                    }
                }
                assert(m1.graphs.dom().finite());
                assert(m1.graphs_ok());
                assert(m1.named_orders_agree());
                assert(m1.default_orders_agree());
                assert(m1.inv());
                assert(m1.graphs == m_mid.graphs.remove(spec_write_term(graph_name@)));
                assert(m1.dspo == m_mid.dspo && m1.spog == m_mid.spog);
                assert forall|q: QuadModel| q.wf() && q.graph_name == graph_name@ implies !(
                #[trigger] m1.contains_quad(q)) by {
                    assert(!m_mid.contains_quad(q));
                }
                assert forall|q: QuadModel| q.wf() && q.graph_name != graph_name@ implies
                    #[trigger] m1.contains_quad(q) == old(self)@.contains_quad(q) by {
                    assert(m_mid.contains_quad(q) == old(self)@.contains_quad(q));
                }
                assert(m1.id2str == old(self)@.id2str);
                assert(m1.default == old(self)@.default);
            }
        }
        r
    }
}


/// The capability set shared by the storage façade and a transaction handle:
/// string interning plus quad insertion and removal, so code that manipulates
/// quads can be written once and run in either mode.
pub trait StorageLike: StrLookup + StrContainer {
    /// The handle's dataset state: the store's keyspaces, or a transaction's
    /// staged view of them.
    spec fn dataset(&self) -> StorageModel;

    /// Inserts `quad`; reports whether it was new.
    fn insert(&mut self, quad: &EncodedQuad) -> (r: Result<bool, Self::Error>)
        requires
            quad.wf(),
        ensures
            r matches Ok(is_new) ==> (final(self).dataset() == old(self).dataset().with_insert(
                quad@,
            ) && is_new == !old(self).dataset().contains_quad(quad@));

    /// Removes `quad`; reports whether it was present.
    fn remove(&mut self, quad: &EncodedQuad) -> (r: Result<bool, Self::Error>)
        requires
            quad.wf(),
        ensures
            r matches Ok(was_in) ==> (final(self).dataset() == old(self).dataset().with_remove(
                quad@,
            ) && was_in == old(self).dataset().contains_quad(quad@));
}

impl StrLookup for Storage {
    type Error = std::io::Error;

    open spec fn str_table(&self) -> Map<Seq<u8>, Seq<u8>> {
        self@.id2str
    }

    fn get_str(&self, key: &StrHash) -> Result<Option<String>, std::io::Error> {
        self.get_str(key)
    }

    fn contains_str(&self, key: &StrHash) -> Result<bool, std::io::Error> {
        self.contains_str(key)
    }
}

impl StrContainer for Storage {
    fn insert_str(&mut self, key: &StrHash, value: &str) -> Result<bool, std::io::Error> {
        self.insert_str(key, value)
    }
}

impl StorageLike for Storage {
    open spec fn dataset(&self) -> StorageModel {
        self@
    }

    fn insert(&mut self, quad: &EncodedQuad) -> Result<bool, std::io::Error> {
        self.insert(quad)
    }

    fn remove(&mut self, quad: &EncodedQuad) -> Result<bool, std::io::Error> {
        self.remove(quad)
    }
}
} // verus!
