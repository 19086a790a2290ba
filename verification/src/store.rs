//! The object store: compressed objects kept under their digests.
//!
//! The store only ever grows. An object is written once; writing under a
//! digest that is already present changes nothing.
use crate::digest::{digest_eq, digest_named, parse_digest};
use crate::error::GitError;
use crate::object::{
    decode, decoded, digest_of, encode, encoded, object_digest, object_of, Object, ObjectModel,
    ObjectType,
};
use vstd::prelude::*;

verus! {

/// One stored object: its digest and its compressed envelope.
#[derive(Debug)]
pub struct StoredObject {
    pub digest: [u8; 20],
    pub bytes: Vec<u8>,
}

/// A content-addressed store of compressed objects.
///
/// Its view is the map from digests to stored bytes.
#[derive(Debug)]
pub struct ObjectStore {
    objects: Vec<StoredObject>,
}

/// The position of the first object stored under `digest` at or after
/// `from`, or the number of objects when there is none.
spec fn position_from(objects: Seq<StoredObject>, digest: Seq<u8>, from: int) -> int
    decreases objects.len() - from,
{
    if from >= objects.len() {
        objects.len() as int
    } else if objects[from].digest@ == digest {
        from
    } else {
        position_from(objects, digest, from + 1)
    }
}

/// What `position_from` returns: the least position at or after `from`
/// that holds the digest.
proof fn lemma_position_from(objects: Seq<StoredObject>, digest: Seq<u8>, from: int)
    requires
        0 <= from <= objects.len(),
    ensures
        from <= position_from(objects, digest, from) <= objects.len(),
        position_from(objects, digest, from) < objects.len() ==> objects[position_from(
            objects,
            digest,
            from,
        )].digest@ == digest,
        forall|i: int|
            from <= i < position_from(objects, digest, from) ==> objects[i].digest@ != digest,
    decreases objects.len() - from,
{
    if from < objects.len() && objects[from].digest@ != digest {
        lemma_position_from(objects, digest, from + 1);
    }
}

/// Any position with these properties is the one that `position_from`
/// returns.
proof fn lemma_position_unique(objects: Seq<StoredObject>, digest: Seq<u8>, at: int)
    requires
        0 <= at <= objects.len(),
        at < objects.len() ==> objects[at].digest@ == digest,
        forall|i: int| 0 <= i < at ==> objects[i].digest@ != digest,
    ensures
        position_from(objects, digest, 0) == at,
{
    lemma_position_from(objects, digest, 0);
}

/// Listing one more object under a digest that is not listed yet adds that
/// digest to the map and leaves the rest as it is.
proof fn lemma_map_of_push(objects: Seq<StoredObject>, object: StoredObject)
    requires
        position_from(objects, object.digest@, 0) == objects.len(),
    ensures
        map_of(objects.push(object)) == map_of(objects).insert(object.digest@, object.bytes@),
        !map_of(objects).contains_key(object.digest@),
{
    let after = objects.push(object);
    assert forall|key: Seq<u8>|
        position_from(after, key, 0) == if key == object.digest@ {
            objects.len() as int
        } else if position_from(objects, key, 0) < objects.len() {
            position_from(objects, key, 0)
        } else {
            after.len() as int
        } by {
        lemma_position_from(objects, key, 0);
        let at = position_from(objects, key, 0);
        if key == object.digest@ {
            lemma_position_unique(after, key, objects.len() as int);
        } else if at < objects.len() {
            lemma_position_unique(after, key, at);
        } else {
            lemma_position_unique(after, key, after.len() as int);
        }
    }
    assert forall|key: Seq<u8>| #[trigger]
        map_of(after).contains_key(key) implies map_of(after)[key] == map_of(objects).insert(
        object.digest@,
        object.bytes@,
    )[key] by {
        lemma_position_from(after, key, 0);
        lemma_position_from(objects, key, 0);
    }
    assert(map_of(after) =~= map_of(objects).insert(object.digest@, object.bytes@));
}

/// The map that a list of stored objects stands for: each digest with the
/// bytes of the first object listed under it.
spec fn map_of(objects: Seq<StoredObject>) -> Map<Seq<u8>, Seq<u8>> {
    Map::new(
        |digest: Seq<u8>| position_from(objects, digest, 0) < objects.len(),
        |digest: Seq<u8>| objects[position_from(objects, digest, 0)].bytes@,
    )
}

/// The store after `bytes` were written under `digest`: what is already
/// present stays as it is.
pub open spec fn stored(store: Map<Seq<u8>, Seq<u8>>, digest: Seq<u8>, bytes: Seq<u8>) -> Map<
    Seq<u8>,
    Seq<u8>,
> {
    if store.contains_key(digest) {
        store
    } else {
        store.insert(digest, bytes)
    }
}

/// The digest that `put` returns, or its failure.
pub open spec fn put_digest(kind: ObjectType, content: Seq<u8>) -> Result<Seq<u8>, GitError> {
    match encoded(kind, content) {
        Ok(object) => Ok(object.digest),
        Err(e) => Err(e),
    }
}

/// The store after `put`.
pub open spec fn put_store(store: Map<Seq<u8>, Seq<u8>>, kind: ObjectType, content: Seq<u8>) -> Map<
    Seq<u8>,
    Seq<u8>,
> {
    match encoded(kind, content) {
        Ok(object) => stored(store, object.digest, object.compressed),
        Err(_) => store,
    }
}

/// The object kept under `digest`.
pub open spec fn fetched(store: Map<Seq<u8>, Seq<u8>>, digest: Seq<u8>) -> Result<
    ObjectModel,
    GitError,
> {
    if store.contains_key(digest) {
        decoded(store[digest])
    } else {
        Err(GitError::ObjectNotFound)
    }
}

/// The object kept under the digest that `hash` names. A text that names no
/// digest finds nothing.
pub open spec fn fetched_hex(store: Map<Seq<u8>, Seq<u8>>, hash: Seq<char>) -> Result<
    ObjectModel,
    GitError,
> {
    match digest_named(hash) {
        Some(digest) => fetched(store, digest),
        None => Err(GitError::ObjectNotFound),
    }
}

impl View for ObjectStore {
    type V = Map<Seq<u8>, Seq<u8>>;

    closed spec fn view(&self) -> Map<Seq<u8>, Seq<u8>> {
        map_of(self.objects@)
    }
}

impl ObjectStore {
    #[verifier::type_invariant]
    spec fn distinct(self) -> bool {
        forall|i: int, j: int|
            0 <= i < j < self.objects@.len() ==> self.objects@[i].digest@
                != self.objects@[j].digest@
    }

    /// The stored objects, in the order in which they were written.
    pub closed spec fn listing(&self) -> Seq<StoredObject> {
        self.objects@
    }

    /// An empty store.
    pub fn new() -> (store: ObjectStore)
        ensures
            store@ == Map::<Seq<u8>, Seq<u8>>::empty(),
            store.listing().len() == 0,
    {
        let store = ObjectStore { objects: Vec::new() };
        assert(store@ =~= Map::<Seq<u8>, Seq<u8>>::empty());
        store
    }

    /// The listing holds the keys of the store and nothing else.
    pub proof fn lemma_listing(&self)
        ensures
            forall|i: int|
                0 <= i < self.listing().len() ==> self@.contains_key(
                    #[trigger] self.listing()[i].digest@,
                ),
            forall|digest: Seq<u8>|
                self@.contains_key(digest) ==> exists|i: int|
                    0 <= i < self.listing().len() && #[trigger] self.listing()[i].digest@
                        == digest,
    {
        assert forall|i: int| 0 <= i < self.listing().len() implies self@.contains_key(
            #[trigger] self.listing()[i].digest@,
        ) by {
            lemma_position_from(self.listing(), self.listing()[i].digest@, 0);
        }
        assert forall|digest: Seq<u8>| self@.contains_key(digest) implies exists|i: int|
            0 <= i < self.listing().len() && #[trigger] self.listing()[i].digest@ == digest by {
            lemma_position_from(self.listing(), digest, 0);
            let at = position_from(self.listing(), digest, 0);
            assert(self.listing()[at].digest@ == digest);
        }
    }

    /// The number of stored objects.
    pub fn len(&self) -> (n: usize)
        ensures
            n == self.listing().len(),
    {
        self.objects.len()
    }

    /// The `i`-th stored object: a key of the store, with the bytes kept
    /// under it. No digest is listed twice.
    pub fn object_at(&self, i: usize) -> (object: &StoredObject)
        requires
            i < self.listing().len(),
        ensures
            *object == self.listing()[i as int],
            self@.contains_key(object.digest@),
            self@[object.digest@] == object.bytes@,
            forall|j: int|
                0 <= j < self.listing().len() && j != i ==> self.listing()[j].digest@
                    != object.digest@,
    {
        proof {
            use_type_invariant(self);
            lemma_position_unique(self.objects@, self.objects@[i as int].digest@, i as int);
        }
        &self.objects[i]
    }

    fn position(&self, digest: &[u8; 20]) -> (at: usize)
        ensures
            at == position_from(self.objects@, digest@, 0),
            at <= self.objects@.len(),
    {
        let mut i: usize = 0;
        while i < self.objects.len()
            invariant
                i <= self.objects@.len(),
                position_from(self.objects@, digest@, 0) == position_from(
                    self.objects@,
                    digest@,
                    i as int,
                ),
            decreases self.objects@.len() - i,
        {
            if digest_eq(&self.objects[i].digest, digest) {
                return i;
            }
            i = i + 1;
        }
        i
    }

    /// Whether an object is stored under `digest`.
    pub fn contains(&self, digest: &[u8; 20]) -> (present: bool)
        ensures
            present == self@.contains_key(digest@),
    {
        self.position(digest) < self.objects.len()
    }

    /// The bytes stored under `digest`.
    pub fn get_raw(&self, digest: &[u8; 20]) -> (bytes: Option<&Vec<u8>>)
        ensures
            match bytes {
                Some(b) => self@.contains_key(digest@) && self@[digest@] == b@,
                None => !self@.contains_key(digest@),
            },
    {
        let at = self.position(digest);
        if at < self.objects.len() {
            Some(&self.objects[at].bytes)
        } else {
            None
        }
    }

    /// Writes `bytes` under `digest` unless the digest is already present.
    /// Returns whether the store changed.
    pub fn insert(&mut self, digest: [u8; 20], bytes: Vec<u8>) -> (added: bool)
        ensures
            final(self)@ == stored(old(self)@, digest@, bytes@),
            added == !old(self)@.contains_key(digest@),
            final(self).listing() == if added {
                old(self).listing().push(StoredObject { digest, bytes })
            } else {
                old(self).listing()
            },
    {
        proof {
            use_type_invariant(&*self);
        }
        let at = self.position(&digest);
        if at < self.objects.len() {
            return false;
        }
        let ghost before = self.objects@;
        proof {
            lemma_position_from(before, digest@, 0);
            lemma_map_of_push(before, StoredObject { digest, bytes });
        }
        let mut objects: Vec<StoredObject> = Vec::new();
        core::mem::swap(&mut self.objects, &mut objects);
        objects.push(StoredObject { digest, bytes });
        core::mem::swap(&mut self.objects, &mut objects);
        true
    }

    /// Stores an object and returns its digest.
    ///
    /// The digest depends on the type and the content alone. Where an object
    /// is already present under it, the store is left as it is.
    pub fn put(&mut self, kind: ObjectType, content: &[u8]) -> (out: Result<[u8; 20], GitError>)
        ensures
            match out {
                Ok(digest) => put_digest(kind, content@) == Ok::<Seq<u8>, GitError>(digest@),
                Err(e) => put_digest(kind, content@) == Err::<Seq<u8>, GitError>(e),
            },
            final(self)@ == put_store(old(self)@, kind, content@),
            out matches Ok(digest) ==> digest@ == object_digest(kind, content@) && final(
                self)@.contains_key(digest@),
            out matches Ok(digest) ==> !old(self)@.contains_key(digest@) ==> fetched(
                final(self)@,
                digest@,
            ) == Ok::<ObjectModel, GitError>(object_of(kind, content@)),
    {
        match encode(kind, content) {
            Ok(object) => {
                let digest = object.digest;
                self.insert(digest, object.compressed);
                Ok(digest)
            },
            Err(e) => Err(e),
        }
    }

    /// The digest under which `put` would store an object. Nothing is
    /// compressed and nothing is stored.
    pub fn put_sink(kind: ObjectType, content: &[u8]) -> (digest: [u8; 20])
        ensures
            digest@ == object_digest(kind, content@),
    {
        digest_of(kind, content)
    }

    /// Reads the object stored under `digest`.
    pub fn get(&self, digest: &[u8; 20]) -> (out: Result<Object, GitError>)
        ensures
            match out {
                Ok(object) => fetched(self@, digest@) == Ok::<ObjectModel, GitError>(object@),
                Err(e) => fetched(self@, digest@) == Err::<ObjectModel, GitError>(e),
            },
            out matches Ok(object) ==> object@.wf(),
    {
        match self.get_raw(digest) {
            Some(bytes) => decode(bytes.as_slice()),
            None => Err(GitError::ObjectNotFound),
        }
    }

    /// Reads the object stored under the digest that `hash` names.
    pub fn get_hex(&self, hash: &str) -> (out: Result<Object, GitError>)
        ensures
            match out {
                Ok(object) => fetched_hex(self@, hash@) == Ok::<ObjectModel, GitError>(object@),
                Err(e) => fetched_hex(self@, hash@) == Err::<ObjectModel, GitError>(e),
            },
            out matches Ok(object) ==> object@.wf(),
    {
        match parse_digest(hash) {
            Some(digest) => self.get(&digest),
            None => Err(GitError::ObjectNotFound),
        }
    }
}

/// Content addressing: the digest that `put` returns is the digest of the
/// envelope, a matter of the type and the content alone, whatever the
/// store holds and however often it is asked. After `put` the store holds
/// the digest; what it held before, it holds unchanged; and a second `put`
/// of the same object changes nothing.
pub proof fn lemma_put_is_content_addressed(
    store: Map<Seq<u8>, Seq<u8>>,
    kind: ObjectType,
    content: Seq<u8>,
)
    ensures
        put_digest(kind, content) is Ok ==> put_digest(kind, content) == Ok::<Seq<u8>, GitError>(
            object_digest(kind, content),
        ),
        put_digest(kind, content) is Ok ==> put_store(store, kind, content).contains_key(
            object_digest(kind, content),
        ),
        store.submap_of(put_store(store, kind, content)),
        put_store(put_store(store, kind, content), kind, content) == put_store(
            store,
            kind,
            content,
        ),
{
}

} // verus!
