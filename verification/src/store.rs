use vstd::prelude::*;
use crate::bytes::{bytes_equal, copy_range};
use crate::codec::{encode, encode_spec, valid_kind};
use crate::errors::Error;
use crate::ident::{id_of, identifier_for, is_valid_identifier, valid_identifier};

verus! {

/// The mapping that a sequence of (identifier, envelope) entries denotes,
/// later entries taking precedence.
pub open spec fn map_of(entries: Seq<(Vec<u8>, Vec<u8>)>) -> Map<Seq<u8>, Seq<u8>>
    decreases entries.len(),
{
    if entries.len() == 0 {
        Map::empty()
    } else {
        map_of(entries.drop_last()).insert(entries.last().0@, entries.last().1@)
    }
}

/// An identifier stands in the mapping exactly when some entry carries it.
proof fn lemma_map_of_contains(entries: Seq<(Vec<u8>, Vec<u8>)>, id: Seq<u8>)
    ensures
        map_of(entries).contains_key(id) <==> exists|i: int|
            0 <= i < entries.len() && entries[i].0@ == id,
    decreases entries.len(),
{
    if entries.len() > 0 {
        lemma_map_of_contains(entries.drop_last(), id);
        let prefix = entries.drop_last();
        if entries.last().0@ == id {
            assert(entries[entries.len() - 1].0@ == id);
        } else if map_of(prefix).contains_key(id) {
            let i = choose|i: int| 0 <= i < prefix.len() && prefix[i].0@ == id;
            assert(entries[i].0@ == id);
        } else if exists|i: int| 0 <= i < entries.len() && entries[i].0@ == id {
            let i = choose|i: int| 0 <= i < entries.len() && entries[i].0@ == id;
            assert(i < entries.len() - 1 ==> prefix[i].0@ == id);
        }
    }
}

/// With distinct identifiers, the mapping holds each entry's envelope
/// under that entry's identifier.
proof fn lemma_map_of_at(entries: Seq<(Vec<u8>, Vec<u8>)>, i: int)
    requires
        0 <= i < entries.len(),
        forall|p: int, q: int| 0 <= p < q < entries.len() ==> entries[p].0@ != entries[q].0@,
    ensures
        map_of(entries)[entries[i].0@] == entries[i].1@,
    decreases entries.len(),
{
    let prefix = entries.drop_last();
    if i == entries.len() - 1 {
    } else {
        assert(entries[i].0@ != entries[entries.len() - 1].0@);
        lemma_map_of_at(prefix, i);
    }
}

/// The store contents after a write of (kind, content): unchanged when
/// the envelope's identifier is already present, else extended by the
/// new envelope under its identifier.
pub open spec fn store_after_put(
    m: Map<Seq<u8>, Seq<u8>>,
    kind: Seq<u8>,
    content: Seq<u8>,
) -> Map<Seq<u8>, Seq<u8>> {
    let env = encode_spec(kind, content);
    let id = id_of(env);
    if m.contains_key(id) {
        m
    } else {
        m.insert(id, env)
    }
}

/// An object store: a mapping from identifiers to envelope bytes.
///
/// Every stored envelope sits under the identifier derived from its own
/// bytes, so writing content that is already present changes nothing.
pub struct Store {
    entries: Vec<(Vec<u8>, Vec<u8>)>,
}

impl Store {
    /// The identifier-to-envelope mapping this store holds.
    pub closed spec fn as_map(&self) -> Map<Seq<u8>, Seq<u8>> {
        map_of(self.entries@)
    }

    /// Well-formed: no two entries share an identifier.
    pub closed spec fn wf(&self) -> bool {
        forall|p: int, q: int|
            0 <= p < q < self.entries@.len() ==> self.entries@[p].0@ != self.entries@[q].0@
    }

    /// Creates an empty store.
    pub fn new() -> (s: Store)
        ensures
            s.wf(),
            s.as_map() == Map::<Seq<u8>, Seq<u8>>::empty(),
    {
        Store { entries: Vec::new() }
    }

    /// Finds the entry that carries `id`, if any.
    fn find(&self, id: &Vec<u8>) -> (r: Option<usize>)
        ensures
            match r {
                Some(i) => i < self.entries@.len() && self.entries@[i as int].0@ == id@,
                None => forall|i: int|
                    0 <= i < self.entries@.len() ==> self.entries@[i].0@ != id@,
            },
    {
        let mut i: usize = 0;
        while i < self.entries.len()
            invariant
                i <= self.entries@.len(),
                forall|j: int| 0 <= j < i ==> self.entries@[j].0@ != id@,
            decreases self.entries@.len() - i,
        {
            if bytes_equal(&self.entries[i].0, id) {
                return Some(i);
            }
            i = i + 1;
        }
        None
    }

    /// Writes the envelope for `kind` and `content` and returns its
    /// identifier.
    ///
    /// Succeeds exactly on valid kinds. A write whose identifier is
    /// already present is skipped: by content-addressing the stored
    /// bytes are already the envelope itself.
    pub fn put(&mut self, kind: &Vec<u8>, content: &Vec<u8>) -> (r: Result<Vec<u8>, Error>)
        requires
            old(self).wf(),
        ensures
            final(self).wf(),
            !valid_kind(kind@) ==> r == Err::<Vec<u8>, Error>(Error::InvalidKind)
                && final(self).as_map() == old(self).as_map(),
            valid_kind(kind@) ==> (r matches Ok(id) && {
                &&& id@ == id_of(encode_spec(kind@, content@))
                &&& valid_identifier(id@)
                &&& final(self).as_map() == store_after_put(old(self).as_map(), kind@, content@)
            }),
    {
        let env = match encode(kind, content) {
            Ok(env) => env,
            Err(e) => {
                return Err(e);
            },
        };
        let id = identifier_for(&env);
        match self.find(&id) {
            Some(i) => {
                proof {
                    lemma_map_of_contains(self.entries@, id@);
                }
                Ok(id)
            },
            None => {
                proof {
                    lemma_map_of_contains(self.entries@, id@);
                }
                let id_key = copy_range(&id, 0, id.len());
                let ghost before = self.entries@;
                self.entries.push((id_key, env));
                proof {
                    assert(id_key@ =~= id@);
                    assert(self.entries@.drop_last() =~= before);
                }
                Ok(id)
            },
        }
    }

    /// Looks up the envelope stored under `id` and returns an owned copy
    /// of its bytes.
    ///
    /// An identifier of the wrong shape is rejected before any lookup;
    /// a well-formed identifier that was never written is not found.
    pub fn get(&self, id: &Vec<u8>) -> (r: Result<Vec<u8>, Error>)
        requires
            self.wf(),
        ensures
            !valid_identifier(id@) ==> r == Err::<Vec<u8>, Error>(Error::InvalidIdentifier),
            valid_identifier(id@) && !self.as_map().contains_key(id@) ==> r == Err::<
                Vec<u8>,
                Error,
            >(Error::ObjectNotFound),
            valid_identifier(id@) && self.as_map().contains_key(id@) ==> (r matches Ok(env)
                && env@ == self.as_map()[id@]),
    {
        if !is_valid_identifier(id) {
            return Err(Error::InvalidIdentifier);
        }
        match self.find(id) {
            Some(i) => {
                proof {
                    lemma_map_of_contains(self.entries@, id@);
                    lemma_map_of_at(self.entries@, i as int);
                }
                let envelope = &self.entries[i].1;
                Ok(copy_range(envelope, 0, envelope.len()))
            },
            None => {
                proof {
                    lemma_map_of_contains(self.entries@, id@);
                }
                Err(Error::ObjectNotFound)
            },
        }
    }
}

/// Writing the same kind and content twice leaves the store exactly as a
/// single write does; both writes name the same identifier, since each
/// returns the identifier of the same envelope.
pub proof fn lemma_put_idempotent(m: Map<Seq<u8>, Seq<u8>>, kind: Seq<u8>, content: Seq<u8>)
    ensures
        store_after_put(store_after_put(m, kind, content), kind, content) == store_after_put(
            m,
            kind,
            content,
        ),
{
    let env = encode_spec(kind, content);
    let id = id_of(env);
    if !m.contains_key(id) {
        assert(m.insert(id, env).contains_key(id));
    }
}

/// Classifies a failed storage read: absence of the object is
/// `ObjectNotFound`, every other failure is `StorageUnavailable`.
pub fn read_failure(not_found: bool) -> (e: Error)
    ensures
        e == (if not_found {
            Error::ObjectNotFound
        } else {
            Error::StorageUnavailable
        }),
{
    if not_found {
        Error::ObjectNotFound
    } else {
        Error::StorageUnavailable
    }
}

} // verus!
