//! The transactional mirror of the storage façade.
//!
//! A transaction spans the eleven named keyspaces.  The substrate stages
//! every read and write in a per-transaction overlay; the staged view of each
//! keyspace is modelled by
//! [`ttree_entries`](crate::backend::ttree_entries), so the mutating methods
//! here carry the same exact contracts as the non-transactional façade, over
//! the staged state.  On commit the staged writes become the store's state;
//! on abort they are discarded.

use vstd::prelude::*;
use vstd::utf8::encode_utf8;
use crate::backend::{transactional_tree_get, transactional_tree_insert,
    transactional_tree_remove, ttree_entries, bytes_to_string, invalid_data_error};
use crate::binary_encoder::{write_term, write_spog_quad, write_posg_quad, write_ospg_quad,
    write_gspo_quad, write_gpos_quad, write_gosp_quad, write_spo_quad, write_pos_quad,
    write_osp_quad, encode_term, spec_quad_key, spec_write_term, QuadEncoding,
    WRITTEN_TERM_MAX_SIZE};
use crate::error::{ConflictableTransactionError, TransactionError, UnabortableTransactionError};
use crate::numeric_encoder::{EncodedQuad, EncodedTerm, StrContainer, StrHash, StrLookup,
    spec_u128_be_bytes};
use crate::storage::{Storage, StorageLike, StorageModel};
use sled::transaction::ConflictableTransactionError as SledConflictable;
use sled::transaction::TransactionError as SledTxnError;
use sled::transaction::TransactionalTree;
use sled::Transactional;

verus! {

/// A handle on one open transaction across the eleven keyspaces.
pub struct StorageTransaction {
    id2str: sled::transaction::TransactionalTree,
    spog: sled::transaction::TransactionalTree,
    posg: sled::transaction::TransactionalTree,
    ospg: sled::transaction::TransactionalTree,
    gspo: sled::transaction::TransactionalTree,
    gpos: sled::transaction::TransactionalTree,
    gosp: sled::transaction::TransactionalTree,
    dspo: sled::transaction::TransactionalTree,
    dpos: sled::transaction::TransactionalTree,
    dosp: sled::transaction::TransactionalTree,
    graphs: sled::transaction::TransactionalTree,
}

impl View for StorageTransaction {
    type V = StorageModel;

    /// The staged view of the transaction.  A transaction does not span the
    /// default keyspace, so the model's `default` component is empty.
    closed spec fn view(&self) -> StorageModel {
        StorageModel {
            default: Map::<Seq<u8>, Seq<u8>>::empty(),
            id2str: ttree_entries(self.id2str),
            spog: ttree_entries(self.spog),
            posg: ttree_entries(self.posg),
            ospg: ttree_entries(self.ospg),
            gspo: ttree_entries(self.gspo),
            gpos: ttree_entries(self.gpos),
            gosp: ttree_entries(self.gosp),
            dspo: ttree_entries(self.dspo),
            dpos: ttree_entries(self.dpos),
            dosp: ttree_entries(self.dosp),
            graphs: ttree_entries(self.graphs),
        }
    }
}

impl StorageTransaction {
    /// Assembles the handle from the substrate's per-keyspace overlay views,
    /// in the order the transaction names the keyspaces.
    pub(crate) fn from_views(v: &Vec<sled::transaction::TransactionalTree>) -> StorageTransaction
        requires
            v@.len() == 11,
    {
        StorageTransaction {
            id2str: v[0].clone(),
            spog: v[1].clone(),
            posg: v[2].clone(),
            ospg: v[3].clone(),
            gspo: v[4].clone(),
            gpos: v[5].clone(),
            gosp: v[6].clone(),
            dspo: v[7].clone(),
            dpos: v[8].clone(),
            dosp: v[9].clone(),
            graphs: v[10].clone(),
        }
    }

    /// Stages an insert of `quad` into the transaction's view: the primary
    /// key first and, exactly when the view lacked it, the redundant mirrors
    /// (and for a named graph its registry entry).  Returns whether the quad
    /// was new in the view.  On an error the view may have gained only some
    /// of the keys.
    pub fn insert(&mut self, quad: &EncodedQuad) -> (r: Result<
        bool,
        UnabortableTransactionError,
    >)
        requires
            quad.wf(),
        ensures
            r matches Ok(is_new) ==> (final(self)@ == old(self)@.with_insert(quad@) && is_new
                == !old(self)@.contains_quad(quad@)),
            r matches Err(_) ==> old(self)@.insert_partial(final(self)@, quad@),
    {
        let mut buffer: Vec<u8> = Vec::with_capacity(4 * WRITTEN_TERM_MAX_SIZE + 1);
        let empty_value: Vec<u8> = Vec::new();

        if quad.graph_name.is_default_graph() {
            write_spo_quad(&mut buffer, quad);
            proof {
                assert(buffer@ =~= spec_quad_key(QuadEncoding::Dspo, quad@));
            }
            let is_new = transactional_tree_insert(
                &mut self.dspo,
                buffer.as_slice(),
                empty_value.as_slice(),
            )?;
            if is_new {
                buffer.clear();
                write_pos_quad(&mut buffer, quad);
                proof {
                    assert(buffer@ =~= spec_quad_key(QuadEncoding::Dpos, quad@));
                }
                transactional_tree_insert(
                    &mut self.dpos,
                    buffer.as_slice(),
                    empty_value.as_slice(),
                )?;
                buffer.clear();
                write_osp_quad(&mut buffer, quad);
                proof {
                    assert(buffer@ =~= spec_quad_key(QuadEncoding::Dosp, quad@));
                }
                transactional_tree_insert(
                    &mut self.dosp,
                    buffer.as_slice(),
                    empty_value.as_slice(),
                )?;
            }
            proof {
                assert(self@ =~= old(self)@.with_insert(quad@));
            }
            Ok(is_new)
        } else {
            write_spog_quad(&mut buffer, quad);
            proof {
                assert(buffer@ =~= spec_quad_key(QuadEncoding::Spog, quad@));
            }
            let is_new = transactional_tree_insert(
                &mut self.spog,
                buffer.as_slice(),
                empty_value.as_slice(),
            )?;
            if is_new {
                buffer.clear();
                write_posg_quad(&mut buffer, quad);
                proof {
                    assert(buffer@ =~= spec_quad_key(QuadEncoding::Posg, quad@));
                }
                transactional_tree_insert(
                    &mut self.posg,
                    buffer.as_slice(),
                    empty_value.as_slice(),
                )?;
                buffer.clear();
                write_ospg_quad(&mut buffer, quad);
                proof {
                    assert(buffer@ =~= spec_quad_key(QuadEncoding::Ospg, quad@));
                }
                transactional_tree_insert(
                    &mut self.ospg,
                    buffer.as_slice(),
                    empty_value.as_slice(),
                )?;
                buffer.clear();
                write_gspo_quad(&mut buffer, quad);
                proof {
                    assert(buffer@ =~= spec_quad_key(QuadEncoding::Gspo, quad@));
                }
                transactional_tree_insert(
                    &mut self.gspo,
                    buffer.as_slice(),
                    empty_value.as_slice(),
                )?;
                buffer.clear();
                write_gpos_quad(&mut buffer, quad);
                proof {
                    assert(buffer@ =~= spec_quad_key(QuadEncoding::Gpos, quad@));
                }
                transactional_tree_insert(
                    &mut self.gpos,
                    buffer.as_slice(),
                    empty_value.as_slice(),
                )?;
                buffer.clear();
                write_gosp_quad(&mut buffer, quad);
                proof {
                    assert(buffer@ =~= spec_quad_key(QuadEncoding::Gosp, quad@));
                }
                transactional_tree_insert(
                    &mut self.gosp,
                    buffer.as_slice(),
                    empty_value.as_slice(),
                )?;
                buffer.clear();
                write_term(&mut buffer, &quad.graph_name);
                proof {
                    assert(buffer@ =~= spec_write_term(quad@.graph_name));
                }
                transactional_tree_insert(
                    &mut self.graphs,
                    buffer.as_slice(),
                    empty_value.as_slice(),
                )?;
            }
            proof {
                assert(self@ =~= old(self)@.with_insert(quad@));
            }
            Ok(is_new)
        }
    }

    /// Stages a removal of `quad` from the transaction's view: the primary
    /// key first and, exactly when the view held it, the mirrors.  The
    /// graph's registry entry is kept.  Returns whether the quad was present
    /// in the view.  On an error the view may have lost only some of the
    /// keys.
    pub fn remove(&mut self, quad: &EncodedQuad) -> (r: Result<
        bool,
        UnabortableTransactionError,
    >)
        requires
            quad.wf(),
        ensures
            r matches Ok(was_in) ==> (final(self)@ == old(self)@.with_remove(quad@) && was_in
                == old(self)@.contains_quad(quad@)),
            r matches Err(_) ==> old(self)@.remove_partial(final(self)@, quad@),
    {
        let mut buffer: Vec<u8> = Vec::with_capacity(4 * WRITTEN_TERM_MAX_SIZE + 1);

        if quad.graph_name.is_default_graph() {
            write_spo_quad(&mut buffer, quad);
            proof {
                assert(buffer@ =~= spec_quad_key(QuadEncoding::Dspo, quad@));
            }
            let is_present = transactional_tree_remove(&mut self.dspo, buffer.as_slice())?;
            if is_present {
                buffer.clear();
                write_pos_quad(&mut buffer, quad);
                proof {
                    assert(buffer@ =~= spec_quad_key(QuadEncoding::Dpos, quad@));
                }
                transactional_tree_remove(&mut self.dpos, buffer.as_slice())?;
                buffer.clear();
                write_osp_quad(&mut buffer, quad);
                proof {
                    assert(buffer@ =~= spec_quad_key(QuadEncoding::Dosp, quad@));
                }
                transactional_tree_remove(&mut self.dosp, buffer.as_slice())?;
            }
            proof {
                assert(self@ =~= old(self)@.with_remove(quad@));
            }
            Ok(is_present)
        } else {
            write_spog_quad(&mut buffer, quad);
            proof {
                assert(buffer@ =~= spec_quad_key(QuadEncoding::Spog, quad@));
            }
            let is_present = transactional_tree_remove(&mut self.spog, buffer.as_slice())?;
            if is_present {
                buffer.clear();
                write_posg_quad(&mut buffer, quad);
                proof {
                    assert(buffer@ =~= spec_quad_key(QuadEncoding::Posg, quad@));
                }
                transactional_tree_remove(&mut self.posg, buffer.as_slice())?;
                buffer.clear();
                write_ospg_quad(&mut buffer, quad);
                proof {
                    assert(buffer@ =~= spec_quad_key(QuadEncoding::Ospg, quad@));
                }
                transactional_tree_remove(&mut self.ospg, buffer.as_slice())?;
                buffer.clear();
                write_gspo_quad(&mut buffer, quad);
                proof {
                    assert(buffer@ =~= spec_quad_key(QuadEncoding::Gspo, quad@));
                }
                transactional_tree_remove(&mut self.gspo, buffer.as_slice())?;
                buffer.clear();
                write_gpos_quad(&mut buffer, quad);
                proof {
                    assert(buffer@ =~= spec_quad_key(QuadEncoding::Gpos, quad@));
                }
                transactional_tree_remove(&mut self.gpos, buffer.as_slice())?;
                buffer.clear();
                write_gosp_quad(&mut buffer, quad);
                proof {
                    assert(buffer@ =~= spec_quad_key(QuadEncoding::Gosp, quad@));
                }
                transactional_tree_remove(&mut self.gosp, buffer.as_slice())?;
            }
            proof {
                assert(self@ =~= old(self)@.with_remove(quad@));
            }
            Ok(is_present)
        }
    }

    /// Stages a registry entry for `graph_name`; returns whether the view
    /// lacked it.  Only the registry keyspace is touched.
    pub fn insert_named_graph(&mut self, graph_name: &EncodedTerm) -> (r: Result<
        bool,
        UnabortableTransactionError,
    >)
        requires
            graph_name.wf(),
        ensures
            r matches Ok(is_new) ==> (final(self)@ == old(self)@.with_graph_insert(graph_name@)
                && is_new == !old(self)@.contains_graph(graph_name@)),
            r matches Err(_) ==> final(self)@ == old(self)@,
    {
        let key = encode_term(graph_name);
        let empty_value: Vec<u8> = Vec::new();
        let r = transactional_tree_insert(&mut self.graphs, key.as_slice(), empty_value.as_slice());
        proof {
            if r is Ok {
                assert(self@ =~= old(self)@.with_graph_insert(graph_name@));
            } else {
                assert(self@ =~= old(self)@);
            }
        }
        r
    }

    /// The interned string under `key` in the transaction's view, if any;
    /// invalid stored UTF-8 is a storage error.
    pub fn get_str(&self, key: &StrHash) -> (r: Result<
        Option<String>,
        UnabortableTransactionError,
    >)
        ensures
            r matches Ok(v) ==> ((v is Some <==> self@.id2str.dom().contains(spec_u128_be_bytes(
                key.hash,
            ))) && (v matches Some(s) ==> encode_utf8(s@) == self@.id2str[spec_u128_be_bytes(
                key.hash,
            )])),
    {
        let k = key.to_be_bytes();
        match transactional_tree_get(&self.id2str, k.as_slice())? {
            Some(bytes) => match bytes_to_string(bytes) {
                Some(s) => Ok(Some(s)),
                None => Err(UnabortableTransactionError::Storage(invalid_data_error(
                    "the interner holds a string that is not valid UTF-8",
                ))),
            },
            None => Ok(None),
        }
    }

    /// Whether the transaction's view holds an interned string under `key`.
    pub fn contains_str(&self, key: &StrHash) -> (r: Result<bool, UnabortableTransactionError>)
        ensures
            r matches Ok(b) ==> b == self@.id2str.dom().contains(spec_u128_be_bytes(key.hash)),
    {
        let k = key.to_be_bytes();
        match transactional_tree_get(&self.id2str, k.as_slice())? {
            Some(_) => Ok(true),
            None => Ok(false),
        }
    }

    /// Stages an interner entry for `value` under `key`; returns whether the
    /// view lacked the key.  Only the interner keyspace is touched.
    pub fn insert_str(&mut self, key: &StrHash, value: &str) -> (r: Result<
        bool,
        UnabortableTransactionError,
    >)
        ensures
            r matches Ok(is_new) ==> (final(self)@ == (StorageModel {
                id2str: old(self)@.id2str.insert(
                    spec_u128_be_bytes(key.hash),
                    encode_utf8(value@),
                ),
                ..old(self)@
            }) && is_new == !old(self)@.id2str.dom().contains(spec_u128_be_bytes(key.hash))),
            r matches Err(_) ==> final(self)@ == old(self)@,
    {
        let k = key.to_be_bytes();
        let r = transactional_tree_insert(&mut self.id2str, k.as_slice(), value.as_bytes());
        proof {
            if r is Ok {
                assert(self@ =~= (StorageModel {
                    id2str: old(self)@.id2str.insert(
                        spec_u128_be_bytes(key.hash),
                        encode_utf8(value@),
                    ),
                    ..old(self)@
                }));
            } else {
                assert(self@ =~= old(self)@);
            }
        }
        r
    }
}

impl Storage {
    /// Runs `f` once (or more, after internal conflicts) inside a transaction
    /// spanning the eleven keyspaces.
    ///
    /// Relies on sled's Transactional::transaction over the eleven trees: a
    /// closure that returns success has all its staged writes committed; one
    /// that aborts has them all discarded, leaving the store unchanged; on an
    /// internal conflict the closure is retried, so it must have no side
    /// effect beyond its staged writes.  A storage failure may interrupt the
    /// commit after some keyspaces' staged writes have been applied, so
    /// nothing is claimed of the store after one.
    #[verifier::external_body]
    pub fn transaction<T, E, F: Fn(StorageTransaction) -> Result<
        T,
        ConflictableTransactionError<E>,
    >>(&mut self, f: F) -> (r: Result<T, TransactionError<E>>)
        requires
            forall|st: StorageTransaction| #[trigger] f.requires((st,)),
        ensures
            r matches Ok(v) ==> (exists|st: StorageTransaction| #[trigger] f.ensures(
                (st,),
                Ok(v),
            )),
            r matches Err(TransactionError::Abort(_)) ==> final(self)@ == old(self)@,
            r matches Err(TransactionError::Abort(e)) ==> (exists|st: StorageTransaction|
                #[trigger] f.ensures((st,), Err(ConflictableTransactionError::Abort(e)))),
    {
        let trees = [&self.id2str, &self.spog, &self.posg, &self.ospg, &self.gspo, &self.gpos, &self.gosp, &self.dspo, &self.dpos, &self.dosp, &self.graphs];
        let r = Transactional::<E>::transaction(&trees[..], |v: &Vec<TransactionalTree>| {
            f(StorageTransaction::from_views(v)).map_err(|e| match e {
                ConflictableTransactionError::Abort(a) => SledConflictable::Abort(a),
                ConflictableTransactionError::Conflict => SledConflictable::Conflict,
                ConflictableTransactionError::Storage(s) => SledConflictable::Storage(s.into()),
            })
        });
        r.map_err(|e| match e {
            SledTxnError::Abort(a) => TransactionError::Abort(a),
            SledTxnError::Storage(s) => TransactionError::Storage(s.into()),
        })
    }
}


impl StrLookup for StorageTransaction {
    type Error = UnabortableTransactionError;

    open spec fn str_table(&self) -> Map<Seq<u8>, Seq<u8>> {
        self@.id2str
    }

    fn get_str(&self, key: &StrHash) -> Result<Option<String>, UnabortableTransactionError> {
        self.get_str(key)
    }

    fn contains_str(&self, key: &StrHash) -> Result<bool, UnabortableTransactionError> {
        self.contains_str(key)
    }
}

impl StrContainer for StorageTransaction {
    fn insert_str(&mut self, key: &StrHash, value: &str) -> Result<
        bool,
        UnabortableTransactionError,
    > {
        self.insert_str(key, value)
    }
}

impl StorageLike for StorageTransaction {
    open spec fn dataset(&self) -> StorageModel {
        self@
    }

    fn insert(&mut self, quad: &EncodedQuad) -> Result<bool, UnabortableTransactionError> {
        self.insert(quad)
    }

    fn remove(&mut self, quad: &EncodedQuad) -> Result<bool, UnabortableTransactionError> {
        self.remove(quad)
    }
}
} // verus!
