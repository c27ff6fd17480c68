//! The block entity: the fixed-layout record, the lookups over the store's
//! indices, and the version-checked write policy.

use vstd::prelude::*;

use crate::db::LbaseConnector;

verus! {

/// The unit of storage: a versioned, signed record in a fixed layout. The
/// payload lives out of line in the heap; `data` is its identifier there.
#[derive(Debug, Clone, Copy)]
pub struct Block {
    pub signature: [u8; 64],
    pub public: [u8; 64],
    pub group: [u8; 32],
    pub key: [u8; 32],
    pub version: u64,
    pub data: u64,
}

/// Whether the block carries the identity triple.
pub open spec fn block_matches(b: Block, public: Seq<u8>, group: Seq<u8>, key: Seq<u8>) -> bool {
    b.public@ == public && b.group@ == group && b.key@ == key
}

/// Why a write was refused: the signature did not verify, or the version
/// was not the next one the namespace requires.
#[derive(Debug, Clone, Copy, PartialEq, Eq)]
pub enum SaveError {
    InvalidSignature,
    InvalidVersion,
}

/// The version-transition rule: from a held version, only the immediate
/// successor is accepted.
pub open spec fn next_version_ok(current: u64, version: u64) -> bool {
    current < u64::MAX && version == current + 1
}

/// Whether the store's version state machine admits the write: version 1
/// onto an absent namespace, the successor of the held version otherwise.
pub open spec fn accepted_version(
    db: LbaseConnector,
    public: Seq<u8>,
    group: Seq<u8>,
    key: Seq<u8>,
    version: u64,
) -> bool {
    if db.has_block(public, group, key) {
        next_version_ok(db.current_version(public, group, key), version)
    } else {
        version == 1
    }
}

/// The shape of an accepted create: one row appended carrying the given
/// fields, one payload appended that the row points at, all else kept.
pub open spec fn created(
    pre: LbaseConnector,
    post: LbaseConnector,
    b: Block,
    signature: Seq<u8>,
    public: Seq<u8>,
    group: Seq<u8>,
    key: Seq<u8>,
    version: u64,
    data: Seq<u8>,
) -> bool {
    &&& b.signature@ == signature
    &&& block_matches(b, public, group, key)
    &&& b.version == version
    &&& post.block_table@ == pre.block_table@.push(b)
    &&& (b.data as int) == pre.block_heap_data@.len()
    &&& post.block_heap_data@.len() == pre.block_heap_data@.len() + 1
    &&& post.block_heap_data@[b.data as int]@ == data
    &&& forall|k: int|
        0 <= k < pre.block_heap_data@.len() ==> post.block_heap_data@[k]
            == pre.block_heap_data@[k]
}

/// The shape of an accepted update: the row at `id` rewritten in place with
/// the new signature, version and payload, identity and record identifier
/// kept, the indices untouched.
pub open spec fn updated(
    pre: LbaseConnector,
    post: LbaseConnector,
    id: int,
    b: Block,
    signature: Seq<u8>,
    version: u64,
    data: Seq<u8>,
) -> bool {
    &&& b.signature@ == signature
    &&& b.version == version
    &&& b.public == pre.blocks()[id].public
    &&& b.group == pre.blocks()[id].group
    &&& b.key == pre.blocks()[id].key
    &&& b.data == pre.blocks()[id].data
    &&& post.block_table@ == pre.block_table@.update(id, b)
    &&& post.block_index_public@ == pre.block_index_public@
    &&& post.block_index_public_group@ == pre.block_index_public_group@
    &&& post.block_index_public_group_key@ == pre.block_index_public_group_key@
    &&& post.block_heap_data@.len() == pre.block_heap_data@.len()
    &&& post.block_heap_data@[b.data as int]@ == data
    &&& forall|k: int|
        0 <= k < pre.block_heap_data@.len() && k != b.data as int ==> post.block_heap_data@[k]
            == pre.block_heap_data@[k]
}

/// The rows an owner lookup selects.
pub open spec fn owner_pred(public: Seq<u8>) -> spec_fn(Block) -> bool {
    |b: Block| b.public@ == public
}

/// The rows an (owner, group) lookup selects.
pub open spec fn owner_group_pred(public: Seq<u8>, group: Seq<u8>) -> spec_fn(Block) -> bool {
    |b: Block| b.public@ == public && b.group@ == group
}

/// One scan step extends a filtered prefix by the row just visited, when
/// the predicate selects it.
proof fn lemma_filter_take_step<A>(s: Seq<A>, pred: spec_fn(A) -> bool, i: int)
    requires
        0 <= i < s.len(),
    ensures
        s.take(i + 1).filter(pred) == if pred(s[i]) {
            s.take(i).filter(pred).push(s[i])
        } else {
            s.take(i).filter(pred)
        },
{
    reveal(Seq::filter);
    assert(s.take(i + 1).drop_last() =~= s.take(i));
    assert(s.take(i + 1).last() == s[i]);
}

/// Byte-wise equality of two fixed-width fields.
fn array_eq<const N: usize>(a: &[u8; N], b: &[u8; N]) -> (r: bool)
    ensures
        r == (a@ == b@),
{
    let mut i: usize = 0;
    while i < N
        invariant
            i <= N,
            forall|j: int| 0 <= j < i ==> a@[j] == b@[j],
        decreases N - i,
    {
        if a[i] != b[i] {
            proof {
                assert(a@[i as int] != b@[i as int]);
            }
            return false;
        }
        i += 1;
    }
    proof {
        assert(a@ =~= b@);
    }
    true
}

/// Identity uniqueness: in a well-formed store, at most one row holds any
/// given (owner, group, key) triple, whatever writes built the store.
pub proof fn lemma_identity_unique(
    db: LbaseConnector,
    public: Seq<u8>,
    group: Seq<u8>,
    key: Seq<u8>,
    i: int,
    j: int,
)
    requires
        db.wf(),
        0 <= i < db.blocks().len(),
        0 <= j < db.blocks().len(),
        block_matches(db.blocks()[i], public, group, key),
        block_matches(db.blocks()[j], public, group, key),
    ensures
        i == j,
{
}

/// A row that carries the triple is the row every triple lookup resolves to.
pub proof fn lemma_block_id_is(
    db: LbaseConnector,
    public: Seq<u8>,
    group: Seq<u8>,
    key: Seq<u8>,
    i: int,
)
    requires
        db.wf(),
        0 <= i < db.blocks().len(),
        block_matches(db.blocks()[i], public, group, key),
    ensures
        db.has_block(public, group, key),
        db.block_id(public, group, key) == i,
        db.stored_block(public, group, key) == db.blocks()[i],
{
    assert(db.has_block(public, group, key));
    let j = db.block_id(public, group, key);
    lemma_identity_unique(db, public, group, key, i, j);
}

/// Version monotonicity: a write the state machine admits carries exactly
/// the next version of the namespace's sequence 1, 2, 3, ...: version 1
/// where the namespace is absent, the successor of the held version
/// otherwise. Everything else is a version conflict.
pub proof fn lemma_version_monotonic(
    db: LbaseConnector,
    public: Seq<u8>,
    group: Seq<u8>,
    key: Seq<u8>,
    version: u64,
)
    requires
        accepted_version(db, public, group, key, version),
    ensures
        db.has_block(public, group, key) ==> version == db.current_version(public, group, key)
            + 1,
        !db.has_block(public, group, key) ==> version == 1,
{
}

/// Round-trip encoding: after an accepted create, the namespace's payload
/// reads back byte for byte as what was written.
pub proof fn lemma_create_round_trip(
    pre: LbaseConnector,
    post: LbaseConnector,
    b: Block,
    signature: Seq<u8>,
    public: Seq<u8>,
    group: Seq<u8>,
    key: Seq<u8>,
    version: u64,
    data: Seq<u8>,
)
    requires
        pre.wf(),
        post.wf(),
        created(pre, post, b, signature, public, group, key, version, data),
    ensures
        (b.data as int) < post.block_heap_data@.len(),
        post.block_heap_data@[b.data as int]@ == data,
        post.has_block(public, group, key),
        post.stored_block(public, group, key) == b,
        post.stored_payload(public, group, key) == data,
{
    assert(post.blocks()[pre.blocks().len() as int] == b);
    lemma_block_id_is(post, public, group, key, pre.blocks().len() as int);
}

/// Index consistency: an accepted create appends the new block to its
/// owner's listing and leaves every other owner's listing unchanged.
pub proof fn lemma_owner_listing_after_create(
    pre: LbaseConnector,
    post: LbaseConnector,
    b: Block,
    signature: Seq<u8>,
    public: Seq<u8>,
    group: Seq<u8>,
    key: Seq<u8>,
    version: u64,
    data: Seq<u8>,
)
    requires
        created(pre, post, b, signature, public, group, key, version, data),
    ensures
        post.blocks().filter(owner_pred(public)) == pre.blocks().filter(owner_pred(public)).push(
            b,
        ),
        forall|other: Seq<u8>|
            other != public ==> #[trigger] post.blocks().filter(owner_pred(other))
                == pre.blocks().filter(owner_pred(other)),
{
    reveal(Seq::filter);
    assert(post.blocks().drop_last() =~= pre.blocks());
    assert(post.blocks().last() == b);
    assert(owner_pred(public)(b));
    assert forall|other: Seq<u8>| other != public implies #[trigger] post.blocks().filter(
        owner_pred(other),
    ) == pre.blocks().filter(owner_pred(other)) by {
        assert(!owner_pred(other)(b));
    }
}

/// An accepted update touches only its own namespace: every other triple
/// keeps its presence, its record and its payload. Payloads cannot alias,
/// because distinct rows hold distinct heap identifiers.
pub proof fn lemma_update_isolates_namespaces(
    pre: LbaseConnector,
    post: LbaseConnector,
    id: int,
    b: Block,
    signature: Seq<u8>,
    version: u64,
    data: Seq<u8>,
    public: Seq<u8>,
    group: Seq<u8>,
    key: Seq<u8>,
)
    requires
        pre.wf(),
        post.wf(),
        0 <= id < pre.blocks().len(),
        updated(pre, post, id, b, signature, version, data),
        !block_matches(pre.blocks()[id], public, group, key),
    ensures
        post.has_block(public, group, key) == pre.has_block(public, group, key),
        pre.has_block(public, group, key) ==> post.stored_block(public, group, key)
            == pre.stored_block(public, group, key),
        pre.has_block(public, group, key) ==> post.stored_payload(public, group, key)
            == pre.stored_payload(public, group, key),
{
    assert(!block_matches(post.blocks()[id], public, group, key));
    if pre.has_block(public, group, key) {
        let i = pre.block_id(public, group, key);
        assert(block_matches(pre.blocks()[i], public, group, key));
        assert(i != id);
        assert(post.blocks()[i] == pre.blocks()[i]);
        lemma_block_id_is(post, public, group, key, i);
        assert(pre.blocks()[i].data != pre.blocks()[id].data);
        assert(post.block_heap_data@[pre.blocks()[i].data as int]
            == pre.block_heap_data@[pre.blocks()[i].data as int]);
    } else {
        if post.has_block(public, group, key) {
            let i = post.block_id(public, group, key);
            assert(block_matches(post.blocks()[i], public, group, key));
            assert(i != id);
            assert(block_matches(pre.blocks()[i], public, group, key));
        }
    }
}

impl Block {
    /// Look the triple up through the (owner, group, key) index: the record
    /// identifier and the record, or `None` when the namespace is absent.
    pub fn get_by_public_group_key(
        db: &LbaseConnector,
        public: &[u8; 64],
        group: &[u8; 32],
        key: &[u8; 32],
    ) -> (r: Option<(usize, Block)>)
        requires
            db.wf(),
        ensures
            r is Some <==> db.has_block(public@, group@, key@),
            r is Some ==> (r->0).0 == db.block_id(public@, group@, key@) && (r->0).1
                == db.stored_block(public@, group@, key@) && block_matches(
                (r->0).1,
                public@,
                group@,
                key@,
            ),
    {
        let n = db.block_index_public_group_key.len();
        let mut i: usize = 0;
        while i < n
            invariant
                db.wf(),
                n == db.blocks().len(),
                i <= n,
                forall|j: int|
                    0 <= j < i ==> !block_matches(#[trigger] db.blocks()[j], public@, group@, key@),
            decreases n - i,
        {
            let entry = &db.block_index_public_group_key[i];
            if array_eq(&entry.0, public) && array_eq(&entry.1, group) && array_eq(&entry.2, key) {
                let b = db.block_table[i];
                proof {
                    assert(block_matches(b, public@, group@, key@));
                    lemma_block_id_is(*db, public@, group@, key@, i as int);
                }
                return Some((i, b));
            }
            i += 1;
        }
        proof {
            assert(!db.has_block(public@, group@, key@));
        }
        None
    }

    /// Whether the namespace holds a record.
    pub fn exists_block(
        db: &LbaseConnector,
        public: &[u8; 64],
        group: &[u8; 32],
        key: &[u8; 32],
    ) -> (r: bool)
        requires
            db.wf(),
        ensures
            r == db.has_block(public@, group@, key@),
    {
        Self::get_by_public_group_key(db, public, group, key).is_some()
    }

    /// The payload the record points at, resolved through the heap.
    pub fn get_data(&self, db: &LbaseConnector) -> (r: Option<Vec<u8>>)
        ensures
            r is Some <==> (self.data as int) < db.block_heap_data@.len(),
            r is Some ==> r->0@ == db.block_heap_data@[self.data as int]@,
    {
        let n = db.block_heap_data.len();
        if self.data < n as u64 {
            let payload = vstd::slice::slice_to_vec(db.block_heap_data[self.data as usize].as_slice());
            Some(payload)
        } else {
            None
        }
    }

    /// All of an owner's records, in table order, through the owner index.
    pub fn get_by_public(db: &LbaseConnector, public: &[u8; 64]) -> (r: Vec<Block>)
        requires
            db.wf(),
        ensures
            r@ == db.blocks().filter(owner_pred(public@)),
    {
        let n = db.block_index_public.len();
        let mut r: Vec<Block> = Vec::new();
        proof {
            reveal(Seq::filter);
            assert(db.blocks().take(0) =~= Seq::<Block>::empty());
        }
        for i in 0..n
            invariant
                db.wf(),
                n == db.blocks().len(),
                r@ == db.blocks().take(i as int).filter(owner_pred(public@)),
        {
            let entry = &db.block_index_public[i];
            if array_eq(entry, public) {
                r.push(db.block_table[i]);
            }
            proof {
                lemma_filter_take_step(db.blocks(), owner_pred(public@), i as int);
            }
        }
        proof {
            assert(db.blocks().take(n as int) =~= db.blocks());
        }
        r
    }

    /// All records of an (owner, group) namespace, in table order, through
    /// the (owner, group) index.
    pub fn get_by_public_group(
        db: &LbaseConnector,
        public: &[u8; 64],
        group: &[u8; 32],
    ) -> (r: Vec<Block>)
        requires
            db.wf(),
        ensures
            r@ == db.blocks().filter(owner_group_pred(public@, group@)),
    {
        let n = db.block_index_public_group.len();
        let mut r: Vec<Block> = Vec::new();
        proof {
            reveal(Seq::filter);
            assert(db.blocks().take(0) =~= Seq::<Block>::empty());
        }
        for i in 0..n
            invariant
                db.wf(),
                n == db.blocks().len(),
                r@ == db.blocks().take(i as int).filter(owner_group_pred(public@, group@)),
        {
            let entry = &db.block_index_public_group[i];
            if array_eq(&entry.0, public) && array_eq(&entry.1, group) {
                r.push(db.block_table[i]);
            }
            proof {
                lemma_filter_take_step(db.blocks(), owner_group_pred(public@, group@), i as int);
            }
        }
        proof {
            assert(db.blocks().take(n as int) =~= db.blocks());
        }
        r
    }

    /// Create the record for a fresh namespace: append the payload to the
    /// heap, the record to the table, and its key tuple to all three
    /// indices.
    pub fn create(
        db: &mut LbaseConnector,
        signature: &[u8; 64],
        public: &[u8; 64],
        group: &[u8; 32],
        key: &[u8; 32],
        version: u64,
        data: &[u8],
    ) -> (r: Block)
        requires
            old(db).wf(),
            !old(db).has_block(public@, group@, key@),
            version == 1,
        ensures
            final(db).wf(),
            created(*old(db), *final(db), r, signature@, public@, group@, key@, version, data@),
            final(db).has_block(public@, group@, key@),
            final(db).stored_block(public@, group@, key@) == r,
            final(db).current_version(public@, group@, key@) == version,
            final(db).stored_payload(public@, group@, key@) == data@,
    {
        let data_pos = db.block_heap_data.len() as u64;
        db.block_heap_data.push(vstd::slice::slice_to_vec(data));

        let block = Block {
            signature: *signature,
            public: *public,
            group: *group,
            key: *key,
            version: version,
            data: data_pos,
        };
        db.block_table.push(block);

        db.block_index_public.push(*public);
        db.block_index_public_group.push((*public, *group));
        db.block_index_public_group_key.push((*public, *group, *key));

        proof {
            let pre = *old(db);
            let post = *db;
            let m = pre.blocks().len() as int;
            assert(post.blocks() =~= pre.blocks().push(block));
            assert forall|j: int| 0 <= j < m implies !block_matches(
                #[trigger] post.blocks()[j],
                public@,
                group@,
                key@,
            ) by {
                if block_matches(post.blocks()[j], public@, group@, key@) {
                    assert(block_matches(pre.blocks()[j], public@, group@, key@));
                }
            }
            assert(post.wf());
            lemma_block_id_is(post, public@, group@, key@, m);
        }
        block
    }

    /// Rewrite this record in place at its identifier: new signature, new
    /// version, payload replaced in its heap slot; identity and indices
    /// untouched.
    pub fn update_data(
        &mut self,
        db: &mut LbaseConnector,
        id: usize,
        signature: &[u8; 64],
        version: u64,
        data: &[u8],
    )
        requires
            old(db).wf(),
            (id as int) < old(db).blocks().len(),
            *old(self) == old(db).blocks()[id as int],
            old(self).version < u64::MAX,
            version == old(self).version + 1,
        ensures
            final(db).wf(),
            updated(*old(db), *final(db), id as int, *final(self), signature@, version, data@),
            *final(self) == final(db).blocks()[id as int],
            final(db).has_block(old(self).public@, old(self).group@, old(self).key@),
            final(db).stored_block(old(self).public@, old(self).group@, old(self).key@)
                == *final(self),
            final(db).current_version(old(self).public@, old(self).group@, old(self).key@)
                == version,
            final(db).stored_payload(old(self).public@, old(self).group@, old(self).key@)
                == data@,
    {
        self.signature = *signature;
        self.version = version;
        proof {
            assert((self.data as int) < db.block_heap_data@.len());
        }
        let heap_len = db.block_heap_data.len();
        proof {
            assert((self.data as int) < (heap_len as int));
        }
        let slot = self.data as usize;
        proof {
            assert(slot as int == self.data as int);
        }
        db.block_heap_data[slot] = vstd::slice::slice_to_vec(data);
        db.block_table[id] = *self;
        proof {
            let pre = *old(db);
            let post = *db;
            assert(post.block_heap_data@ == pre.block_heap_data@.update(
                old(self).data as int,
                post.block_heap_data@[old(self).data as int],
            ));
            assert(post.block_heap_data@[old(self).data as int]@ == data@);
            assert forall|i: int, j: int|
                0 <= i < post.blocks().len() && 0 <= j < post.blocks().len() && i
                    != j implies !((#[trigger] post.blocks()[i]).public@ == (
            #[trigger] post.blocks()[j]).public@ && post.blocks()[i].group@
                == post.blocks()[j].group@ && post.blocks()[i].key@ == post.blocks()[j].key@) by {
                assert(post.blocks()[i].public@ == pre.blocks()[i].public@ && post.blocks()[i].group@
                    == pre.blocks()[i].group@ && post.blocks()[i].key@ == pre.blocks()[i].key@);
                assert(post.blocks()[j].public@ == pre.blocks()[j].public@ && post.blocks()[j].group@
                    == pre.blocks()[j].group@ && post.blocks()[j].key@ == pre.blocks()[j].key@);
            }
            assert(post.wf());
            assert(block_matches(post.blocks()[id as int], old(self).public@, old(self).group@, old(self).key@));
            lemma_block_id_is(post, old(self).public@, old(self).group@, old(self).key@, id as int);
        }
    }

    /// Admit or refuse a write, owning the whole policy in one place: the
    /// signature verdict gates first, then the version state machine
    /// decides between create, update and version conflict. Nothing is
    /// mutated on a refused write.
    ///
    /// `signature_valid` is the curve verifier's verdict on this write's
    /// signature over the digest `crypto::signing_digest` builds.
    pub fn save(
        db: &mut LbaseConnector,
        signature: &[u8; 64],
        public: &[u8; 64],
        group: &[u8; 32],
        key: &[u8; 32],
        version: u64,
        data: &[u8],
        signature_valid: bool,
    ) -> (r: Result<Block, SaveError>)
        requires
            old(db).wf(),
        ensures
            final(db).wf(),
            r is Ok <==> signature_valid && accepted_version(
                *old(db),
                public@,
                group@,
                key@,
                version,
            ),
            r is Err ==> *final(db) == *old(db),
            r matches Err(e) ==> ((e is InvalidSignature) <==> !signature_valid),
            r is Ok ==> ({
                let b = r->Ok_0;
                &&& if old(db).has_block(public@, group@, key@) {
                    updated(
                        *old(db),
                        *final(db),
                        old(db).block_id(public@, group@, key@),
                        b,
                        signature@,
                        version,
                        data@,
                    )
                } else {
                    created(
                        *old(db),
                        *final(db),
                        b,
                        signature@,
                        public@,
                        group@,
                        key@,
                        version,
                        data@,
                    )
                }
                &&& final(db).has_block(public@, group@, key@)
                &&& final(db).stored_block(public@, group@, key@) == b
                &&& final(db).current_version(public@, group@, key@) == version
                &&& final(db).stored_payload(public@, group@, key@) == data@
            }),
    {
        if !signature_valid {
            return Err(SaveError::InvalidSignature);
        }
        match Self::get_by_public_group_key(db, public, group, key) {
            Some((block_id, block)) => {
                let mut block = block;
                if block.version == u64::MAX || version != block.version + 1 {
                    return Err(SaveError::InvalidVersion);
                }
                block.update_data(db, block_id, signature, version, data);
                Ok(block)
            },
            None => {
                if version != 1 {
                    return Err(SaveError::InvalidVersion);
                }
                Ok(Self::create(db, signature, public, group, key, version, data))
            },
        }
    }
}

} // verus!
