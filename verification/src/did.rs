//! Identity registry: decentralized-identity (DID) documents and
//! institution registrations.
//!
//! A document binds a principal to a bounded list of public keys and an
//! active flag; an institution record marks a principal as a (possibly
//! verified) credential issuer. Documents and institutions are created once
//! per principal and never deleted.

use crate::hashing::blake2_of;
use crate::hashing::blake2_256;
use crate::store::bytes32_eq;
use crate::store::entries_map;
use crate::store::find_u64;
use crate::store::keys_unique;
use crate::store::lemma_entries_map_contains;
use crate::store::lemma_entries_map_index;
use crate::store::lemma_entries_map_push;
use crate::store::lemma_entries_map_update;
use crate::Origin;
use vstd::prelude::*;

verus! {

/// The kind of a public key held in a DID document.
#[derive(Clone, Copy, PartialEq, Eq, Structural, Debug)]
pub enum KeyType {
    Ed25519,
    Sr25519,
    Ecdsa,
}

/// One public key of a DID document; `key_id` is the Blake2b-256 digest of
/// the raw key bytes.
#[derive(Clone, Copy, Debug)]
pub struct PublicKeyEntry {
    pub key_id: [u8; 32],
    pub key_type: KeyType,
    pub public_key: [u8; 32],
}

/// Mathematical image of a [`PublicKeyEntry`].
#[verifier::ext_equal]
pub struct PublicKeyEntryV {
    pub key_id: Seq<u8>,
    pub key_type: KeyType,
    pub public_key: Seq<u8>,
}

impl DeepView for PublicKeyEntry {
    type V = PublicKeyEntryV;

    open spec fn deep_view(&self) -> PublicKeyEntryV {
        PublicKeyEntryV {
            key_id: self.key_id@,
            key_type: self.key_type,
            public_key: self.public_key@,
        }
    }
}

/// A DID document: the controller principal, its public keys, timestamps of
/// creation and last update, and an active flag.
#[derive(Clone, Debug)]
pub struct DidDocument {
    pub controller: u64,
    pub public_keys: Vec<PublicKeyEntry>,
    pub created_at: u64,
    pub updated_at: u64,
    pub active: bool,
}

/// Mathematical image of a [`DidDocument`].
#[verifier::ext_equal]
pub struct DidDocumentV {
    pub controller: u64,
    pub public_keys: Seq<PublicKeyEntryV>,
    pub created_at: u64,
    pub updated_at: u64,
    pub active: bool,
}

impl DeepView for DidDocument {
    type V = DidDocumentV;

    open spec fn deep_view(&self) -> DidDocumentV {
        DidDocumentV {
            controller: self.controller,
            public_keys: self.public_keys.deep_view(),
            created_at: self.created_at,
            updated_at: self.updated_at,
            active: self.active,
        }
    }
}

/// An institution registration: a display name, the registered principal,
/// the verification flag only a privileged caller may change, and the
/// registration time.
#[derive(Clone, Debug)]
pub struct Institution {
    pub name: Vec<u8>,
    pub did: u64,
    pub verified: bool,
    pub registered_at: u64,
}

/// Mathematical image of an [`Institution`].
#[verifier::ext_equal]
pub struct InstitutionV {
    pub name: Seq<u8>,
    pub did: u64,
    pub verified: bool,
    pub registered_at: u64,
}

impl DeepView for Institution {
    type V = InstitutionV;

    open spec fn deep_view(&self) -> InstitutionV {
        InstitutionV {
            name: self.name@,
            did: self.did,
            verified: self.verified,
            registered_at: self.registered_at,
        }
    }
}

/// Everything that can go wrong in the identity registry.
#[derive(Clone, Copy, PartialEq, Eq, Structural, Debug)]
pub enum Error {
    /// The caller is not the privileged origin a governance operation needs.
    BadOrigin,
    DidAlreadyExists,
    DidNotFound,
    NotAuthorized,
    TooManyPublicKeys,
    PublicKeyAlreadyExists,
    PublicKeyNotFound,
    InstitutionAlreadyRegistered,
    InstitutionNotFound,
    DidInactive,
    InvalidInstitutionName,
}

/// Notifications the identity registry emits, in order, one per successful
/// mutating operation.
#[derive(Clone, PartialEq, Eq, Debug)]
pub enum Event {
    DidCreated { owner: u64 },
    DidUpdated { owner: u64 },
    DidDeactivated { owner: u64 },
    PublicKeyAdded { owner: u64, key_id: [u8; 32] },
    PublicKeyRemoved { owner: u64, key_id: [u8; 32] },
    InstitutionRegistered { did: u64, name: Vec<u8> },
    InstitutionVerified { did: u64 },
    InstitutionRevoked { did: u64 },
}

/// Mathematical image of an [`Event`].
#[verifier::ext_equal]
pub enum EventV {
    DidCreated { owner: u64 },
    DidUpdated { owner: u64 },
    DidDeactivated { owner: u64 },
    PublicKeyAdded { owner: u64, key_id: Seq<u8> },
    PublicKeyRemoved { owner: u64, key_id: Seq<u8> },
    InstitutionRegistered { did: u64, name: Seq<u8> },
    InstitutionVerified { did: u64 },
    InstitutionRevoked { did: u64 },
}

impl DeepView for Event {
    type V = EventV;

    open spec fn deep_view(&self) -> EventV {
        match self {
            Event::DidCreated { owner } => EventV::DidCreated { owner: *owner },
            Event::DidUpdated { owner } => EventV::DidUpdated { owner: *owner },
            Event::DidDeactivated { owner } => EventV::DidDeactivated { owner: *owner },
            Event::PublicKeyAdded { owner, key_id } => EventV::PublicKeyAdded {
                owner: *owner,
                key_id: key_id@,
            },
            Event::PublicKeyRemoved { owner, key_id } => EventV::PublicKeyRemoved {
                owner: *owner,
                key_id: key_id@,
            },
            Event::InstitutionRegistered { did, name } => EventV::InstitutionRegistered {
                did: *did,
                name: name@,
            },
            Event::InstitutionVerified { did } => EventV::InstitutionVerified { did: *did },
            Event::InstitutionRevoked { did } => EventV::InstitutionRevoked { did: *did },
        }
    }
}

/// Some key of the list carries this key identifier.
pub open spec fn has_key_id(keys: Seq<PublicKeyEntryV>, key_id: Seq<u8>) -> bool {
    exists|j: int| 0 <= j < keys.len() && keys[j].key_id == key_id
}

/// The identity registry: DID documents and institutions, keyed by
/// principal, plus the capacity bounds fixed at construction and the
/// ordered notification log.
pub struct Pallet {
    pub docs: Vec<(u64, DidDocument)>,
    pub insts: Vec<(u64, Institution)>,
    pub max_public_keys: u32,
    pub max_document_size: u32,
    pub events: Vec<Event>,
}

impl Pallet {
    /// Documents by principal.
    pub open spec fn documents_map(self) -> Map<u64, DidDocumentV> {
        entries_map(self.docs@)
    }

    /// Institutions by principal.
    pub open spec fn institutions_map(self) -> Map<u64, InstitutionV> {
        entries_map(self.insts@)
    }

    /// The notifications emitted so far, oldest first.
    pub open spec fn events_seq(self) -> Seq<EventV> {
        self.events.deep_view()
    }

    /// Table keys are pairwise distinct.
    pub open spec fn wf(self) -> bool {
        keys_unique(self.docs@) && keys_unique(self.insts@)
    }

    /// The capacity bounds never change after construction.
    pub open spec fn same_config(self, other: Pallet) -> bool {
        self.max_public_keys == other.max_public_keys && self.max_document_size
            == other.max_document_size
    }

    /// An empty registry with the given bounds: at most `max_public_keys`
    /// keys per document and institution names of at most
    /// `max_document_size` bytes.
    pub fn new(max_public_keys: u32, max_document_size: u32) -> (r: Pallet)
        ensures
            r.wf(),
            r.documents_map() == Map::<u64, DidDocumentV>::empty(),
            r.institutions_map() == Map::<u64, InstitutionV>::empty(),
            r.events_seq() == Seq::<EventV>::empty(),
            r.max_public_keys == max_public_keys,
            r.max_document_size == max_document_size,
    {
        let r = Pallet {
            docs: Vec::new(),
            insts: Vec::new(),
            max_public_keys,
            max_document_size,
            events: Vec::new(),
        };
        proof {
            assert(r.events_seq() =~= Seq::<EventV>::empty());
        }
        r
    }

    /// The document a freshly created DID holds: a single key entry whose
    /// identifier is the digest of the raw key, both timestamps at `now`,
    /// and the active flag set.
    pub open spec fn created_document(
        who: u64,
        public_key: Seq<u8>,
        key_type: KeyType,
        now: u64,
    ) -> DidDocumentV {
        DidDocumentV {
            controller: who,
            public_keys: seq![
                (PublicKeyEntryV {
                    key_id: blake2_of(public_key),
                    key_type: key_type,
                    public_key: public_key,
                }),
            ],
            created_at: now,
            updated_at: now,
            active: true,
        }
    }

    /// What `create_did` returns: an error if the caller already has a
    /// document, or if no key at all may be stored.
    pub open spec fn create_did_outcome(self, who: u64) -> Result<(), Error> {
        if self.documents_map().contains_key(who) {
            Err(Error::DidAlreadyExists)
        } else if self.max_public_keys == 0 {
            Err(Error::TooManyPublicKeys)
        } else {
            Ok(())
        }
    }

    /// Create a DID document for `who` holding the single given key.
    pub fn create_did(&mut self, who: u64, public_key: [u8; 32], key_type: KeyType, now: u64) -> (r:
        Result<(), Error>)
        requires
            old(self).wf(),
        ensures
            final(self).wf(),
            old(self).same_config(*final(self)),
            r == old(self).create_did_outcome(who),
            r is Err ==> *final(self) == *old(self),
            r is Ok ==> final(self).documents_map() == old(self).documents_map().insert(
                who,
                Self::created_document(who, public_key@, key_type, now),
            ),
            r is Ok ==> final(self).institutions_map() == old(self).institutions_map(),
            r is Ok ==> final(self).events_seq() == old(self).events_seq().push(
                (EventV::DidCreated { owner: who }),
            ),
    {
        let found = find_u64(&self.docs, who);
        proof {
            lemma_entries_map_contains::<u64, DidDocument>(self.docs@, who);
        }
        if found.is_some() {
            return Err(Error::DidAlreadyExists);
        }
        if self.max_public_keys == 0 {
            return Err(Error::TooManyPublicKeys);
        }
        let key_id = blake2_256(public_key.as_slice());
        let entry = PublicKeyEntry { key_id, key_type, public_key };
        let mut keys: Vec<PublicKeyEntry> = Vec::new();
        keys.push(entry);
        let doc = DidDocument {
            controller: who,
            public_keys: keys,
            created_at: now,
            updated_at: now,
            active: true,
        };
        proof {
            lemma_entries_map_push(self.docs@, who, doc);
            assert(doc.deep_view().public_keys =~= Self::created_document(
                who,
                public_key@,
                key_type,
                now,
            ).public_keys);
        }
        self.docs.push((who, doc));
        self.events.push(Event::DidCreated { owner: who });
        proof {
            assert(keys_unique(self.docs@));
            assert(self.events_seq() =~= old(self).events_seq().push(
                (EventV::DidCreated { owner: who }),
            ));
        }
        Ok(())
    }

    /// What `add_public_key` returns, where `key_id` is the digest of the
    /// offered key: the document must exist, be controlled by the caller and
    /// be active; the key must be new and the key list below capacity.
    pub open spec fn add_public_key_outcome(self, who: u64, key_id: Seq<u8>) -> Result<(), Error> {
        if !self.documents_map().contains_key(who) {
            Err(Error::DidNotFound)
        } else {
            let d = self.documents_map()[who];
            if d.controller != who {
                Err(Error::NotAuthorized)
            } else if !d.active {
                Err(Error::DidInactive)
            } else if has_key_id(d.public_keys, key_id) {
                Err(Error::PublicKeyAlreadyExists)
            } else if d.public_keys.len() >= self.max_public_keys {
                Err(Error::TooManyPublicKeys)
            } else {
                Ok(())
            }
        }
    }

    /// Append a further public key to the caller's document.
    pub fn add_public_key(
        &mut self,
        who: u64,
        public_key: [u8; 32],
        key_type: KeyType,
        now: u64,
    ) -> (r: Result<(), Error>)
        requires
            old(self).wf(),
        ensures
            final(self).wf(),
            old(self).same_config(*final(self)),
            r == old(self).add_public_key_outcome(who, blake2_of(public_key@)),
            r is Err ==> *final(self) == *old(self),
            r is Ok ==> final(self).documents_map() == old(self).documents_map().insert(
                who,
                (DidDocumentV {
                    public_keys: old(self).documents_map()[who].public_keys.push(
                        (PublicKeyEntryV {
                            key_id: blake2_of(public_key@),
                            key_type: key_type,
                            public_key: public_key@,
                        }),
                    ),
                    updated_at: now,
                    ..old(self).documents_map()[who]
                }),
            ),
            r is Ok ==> final(self).institutions_map() == old(self).institutions_map(),
            r is Ok ==> final(self).events_seq() == old(self).events_seq().push(
                (EventV::PublicKeyAdded { owner: who, key_id: blake2_of(public_key@) }),
            ),
    {
        let found = find_u64(&self.docs, who);
        proof {
            lemma_entries_map_contains::<u64, DidDocument>(self.docs@, who);
        }
        let i = match found {
            None => {
                return Err(Error::DidNotFound);
            },
            Some(i) => i,
        };
        proof {
            lemma_entries_map_index::<u64, DidDocument>(self.docs@, i as int);
        }
        if self.docs[i].1.controller != who {
            return Err(Error::NotAuthorized);
        }
        if !self.docs[i].1.active {
            return Err(Error::DidInactive);
        }
        let key_id = blake2_256(public_key.as_slice());
        if Self::holds_key_id(&self.docs[i].1.public_keys, &key_id) {
            return Err(Error::PublicKeyAlreadyExists);
        }
        if self.docs[i].1.public_keys.len() >= self.max_public_keys as usize {
            return Err(Error::TooManyPublicKeys);
        }
        let entry = PublicKeyEntry { key_id, key_type, public_key };
        let (k, mut doc) = self.docs.remove(i);
        let ghost old_keys = doc.public_keys.deep_view();
        doc.public_keys.push(entry);
        doc.updated_at = now;
        proof {
            assert(doc.public_keys.deep_view() =~= old_keys.push(entry.deep_view()));
        }
        self.docs.insert(i, (k, doc));
        self.events.push(Event::PublicKeyAdded { owner: who, key_id });
        proof {
            assert(self.docs@ =~= old(self).docs@.update(i as int, (k, doc)));
            lemma_entries_map_update(old(self).docs@, i as int, k, doc);
            assert(keys_unique(self.docs@));
            assert(self.events_seq() =~= old(self).events_seq().push(
                (EventV::PublicKeyAdded { owner: who, key_id: blake2_of(public_key@) }),
            ));
        }
        Ok(())
    }

    /// Whether some stored key carries this key identifier.
    fn holds_key_id(keys: &Vec<PublicKeyEntry>, key_id: &[u8; 32]) -> (r: bool)
        ensures
            r == has_key_id(keys.deep_view(), key_id@),
    {
        let mut j: usize = 0;
        while j < keys.len()
            invariant
                j <= keys.len(),
                forall|l: int| 0 <= l < j ==> keys.deep_view()[l].key_id != key_id@,
            decreases keys.len() - j,
        {
            if bytes32_eq(&keys[j].key_id, key_id) {
                proof {
                    assert(keys.deep_view()[j as int].key_id == key_id@);
                }
                return true;
            }
            j = j + 1;
        }
        false
    }

    /// What `remove_public_key` returns: the document must exist and be
    /// controlled by the caller, and some key must carry the identifier.
    pub open spec fn remove_public_key_outcome(self, who: u64, key_id: Seq<u8>) -> Result<
        (),
        Error,
    > {
        if !self.documents_map().contains_key(who) {
            Err(Error::DidNotFound)
        } else {
            let d = self.documents_map()[who];
            if d.controller != who {
                Err(Error::NotAuthorized)
            } else if !has_key_id(d.public_keys, key_id) {
                Err(Error::PublicKeyNotFound)
            } else {
                Ok(())
            }
        }
    }

    /// Remove every key entry carrying `key_id` from the caller's document.
    pub fn remove_public_key(&mut self, who: u64, key_id: [u8; 32], now: u64) -> (r: Result<
        (),
        Error,
    >)
        requires
            old(self).wf(),
        ensures
            final(self).wf(),
            old(self).same_config(*final(self)),
            r == old(self).remove_public_key_outcome(who, key_id@),
            r is Err ==> *final(self) == *old(self),
            r is Ok ==> final(self).documents_map() == old(self).documents_map().insert(
                who,
                (DidDocumentV {
                    public_keys: old(self).documents_map()[who].public_keys.filter(
                        |k: PublicKeyEntryV| k.key_id != key_id@,
                    ),
                    updated_at: now,
                    ..old(self).documents_map()[who]
                }),
            ),
            r is Ok ==> final(self).institutions_map() == old(self).institutions_map(),
            r is Ok ==> final(self).events_seq() == old(self).events_seq().push(
                (EventV::PublicKeyRemoved { owner: who, key_id: key_id@ }),
            ),
    {
        let found = find_u64(&self.docs, who);
        proof {
            lemma_entries_map_contains::<u64, DidDocument>(self.docs@, who);
        }
        let i = match found {
            None => {
                return Err(Error::DidNotFound);
            },
            Some(i) => i,
        };
        proof {
            lemma_entries_map_index::<u64, DidDocument>(self.docs@, i as int);
        }
        if self.docs[i].1.controller != who {
            return Err(Error::NotAuthorized);
        }
        if !Self::holds_key_id(&self.docs[i].1.public_keys, &key_id) {
            return Err(Error::PublicKeyNotFound);
        }
        let (k, mut doc) = self.docs.remove(i);
        let ghost old_keys = doc.public_keys.deep_view();
        let ghost pred = |kv: PublicKeyEntryV| kv.key_id != key_id@;
        let mut kept: Vec<PublicKeyEntry> = Vec::new();
        let mut j: usize = 0;
        while j < doc.public_keys.len()
            invariant
                j <= doc.public_keys.len(),
                old_keys == doc.public_keys.deep_view(),
                old_keys.len() == doc.public_keys.len(),
                kept.deep_view() == old_keys.subrange(0, j as int).filter(pred),
                pred == (|kv: PublicKeyEntryV| kv.key_id != key_id@),
            decreases doc.public_keys.len() - j,
        {
            let ghost prefix = old_keys.subrange(0, j as int);
            proof {
                reveal(Seq::filter);
                assert(old_keys.subrange(0, j + 1).drop_last() =~= prefix);
                assert(old_keys.subrange(0, j + 1).last() == old_keys[j as int]);
            }
            let entry = doc.public_keys[j];
            if !bytes32_eq(&entry.key_id, &key_id) {
                kept.push(entry);
                proof {
                    assert(kept.deep_view() =~= prefix.filter(pred).push(
                        old_keys[j as int],
                    ));
                }
            }
            j = j + 1;
        }
        proof {
            assert(old_keys.subrange(0, old_keys.len() as int) =~= old_keys);
        }
        doc.public_keys = kept;
        doc.updated_at = now;
        self.docs.insert(i, (k, doc));
        self.events.push(Event::PublicKeyRemoved { owner: who, key_id });
        proof {
            assert(self.docs@ =~= old(self).docs@.update(i as int, (k, doc)));
            lemma_entries_map_update(old(self).docs@, i as int, k, doc);
            assert(keys_unique(self.docs@));
            assert(self.events_seq() =~= old(self).events_seq().push(
                (EventV::PublicKeyRemoved { owner: who, key_id: key_id@ }),
            ));
        }
        Ok(())
    }

    /// What `deactivate_did` and `reactivate_did` return: the document must
    /// exist and be controlled by the caller.
    pub open spec fn toggle_outcome(self, who: u64) -> Result<(), Error> {
        if !self.documents_map().contains_key(who) {
            Err(Error::DidNotFound)
        } else if self.documents_map()[who].controller != who {
            Err(Error::NotAuthorized)
        } else {
            Ok(())
        }
    }

    /// Clear the caller's active flag (idempotent).
    pub fn deactivate_did(&mut self, who: u64, now: u64) -> (r: Result<(), Error>)
        requires
            old(self).wf(),
        ensures
            final(self).wf(),
            old(self).same_config(*final(self)),
            r == old(self).toggle_outcome(who),
            r is Err ==> *final(self) == *old(self),
            r is Ok ==> final(self).documents_map() == old(self).documents_map().insert(
                who,
                (DidDocumentV {
                    active: false,
                    updated_at: now,
                    ..old(self).documents_map()[who]
                }),
            ),
            r is Ok ==> final(self).institutions_map() == old(self).institutions_map(),
            r is Ok ==> final(self).events_seq() == old(self).events_seq().push(
                (EventV::DidDeactivated { owner: who }),
            ),
    {
        self.set_active(who, false, now)
    }

    /// Set the caller's active flag again (idempotent).
    pub fn reactivate_did(&mut self, who: u64, now: u64) -> (r: Result<(), Error>)
        requires
            old(self).wf(),
        ensures
            final(self).wf(),
            old(self).same_config(*final(self)),
            r == old(self).toggle_outcome(who),
            r is Err ==> *final(self) == *old(self),
            r is Ok ==> final(self).documents_map() == old(self).documents_map().insert(
                who,
                (DidDocumentV {
                    active: true,
                    updated_at: now,
                    ..old(self).documents_map()[who]
                }),
            ),
            r is Ok ==> final(self).institutions_map() == old(self).institutions_map(),
            r is Ok ==> final(self).events_seq() == old(self).events_seq().push(
                (EventV::DidUpdated { owner: who }),
            ),
    {
        self.set_active(who, true, now)
    }

    /// Shared body of the two activation toggles.
    fn set_active(&mut self, who: u64, active: bool, now: u64) -> (r: Result<(), Error>)
        requires
            old(self).wf(),
        ensures
            final(self).wf(),
            old(self).same_config(*final(self)),
            r == old(self).toggle_outcome(who),
            r is Err ==> *final(self) == *old(self),
            r is Ok ==> final(self).documents_map() == old(self).documents_map().insert(
                who,
                (DidDocumentV {
                    active: active,
                    updated_at: now,
                    ..old(self).documents_map()[who]
                }),
            ),
            r is Ok ==> final(self).institutions_map() == old(self).institutions_map(),
            r is Ok ==> final(self).events_seq() == old(self).events_seq().push(
                if active {
                    (EventV::DidUpdated { owner: who })
                } else {
                    (EventV::DidDeactivated { owner: who })
                },
            ),
    {
        let found = find_u64(&self.docs, who);
        proof {
            lemma_entries_map_contains::<u64, DidDocument>(self.docs@, who);
        }
        let i = match found {
            None => {
                return Err(Error::DidNotFound);
            },
            Some(i) => i,
        };
        proof {
            lemma_entries_map_index::<u64, DidDocument>(self.docs@, i as int);
        }
        if self.docs[i].1.controller != who {
            return Err(Error::NotAuthorized);
        }
        let (k, mut doc) = self.docs.remove(i);
        doc.active = active;
        doc.updated_at = now;
        self.docs.insert(i, (k, doc));
        let event = if active {
            Event::DidUpdated { owner: who }
        } else {
            Event::DidDeactivated { owner: who }
        };
        self.events.push(event);
        proof {
            assert(self.docs@ =~= old(self).docs@.update(i as int, (k, doc)));
            lemma_entries_map_update(old(self).docs@, i as int, k, doc);
            assert(keys_unique(self.docs@));
            assert(self.events_seq() =~= old(self).events_seq().push(event.deep_view()));
        }
        Ok(())
    }

    /// What `register_institution` returns: at most one registration per
    /// principal, a document must already exist, and the name may not be
    /// empty.
    pub open spec fn register_institution_outcome(self, who: u64, name: Seq<u8>) -> Result<
        (),
        Error,
    > {
        if self.institutions_map().contains_key(who) {
            Err(Error::InstitutionAlreadyRegistered)
        } else if !self.documents_map().contains_key(who) {
            Err(Error::DidNotFound)
        } else if name.len() == 0 {
            Err(Error::InvalidInstitutionName)
        } else {
            Ok(())
        }
    }

    /// Register the caller as an institution, initially unverified.
    pub fn register_institution(&mut self, who: u64, name: Vec<u8>, now: u64) -> (r: Result<
        (),
        Error,
    >)
        requires
            old(self).wf(),
            name@.len() <= old(self).max_document_size,
        ensures
            final(self).wf(),
            old(self).same_config(*final(self)),
            r == old(self).register_institution_outcome(who, name@),
            r is Err ==> *final(self) == *old(self),
            r is Ok ==> final(self).institutions_map() == old(self).institutions_map().insert(
                who,
                (InstitutionV { name: name@, did: who, verified: false, registered_at: now }),
            ),
            r is Ok ==> final(self).documents_map() == old(self).documents_map(),
            r is Ok ==> final(self).events_seq() == old(self).events_seq().push(
                (EventV::InstitutionRegistered { did: who, name: name@ }),
            ),
    {
        let found = find_u64(&self.insts, who);
        proof {
            lemma_entries_map_contains::<u64, Institution>(self.insts@, who);
            lemma_entries_map_contains::<u64, DidDocument>(self.docs@, who);
        }
        if found.is_some() {
            return Err(Error::InstitutionAlreadyRegistered);
        }
        if find_u64(&self.docs, who).is_none() {
            return Err(Error::DidNotFound);
        }
        if name.len() == 0 {
            return Err(Error::InvalidInstitutionName);
        }
        let ghost name_view = name@;
        let event_name = crate::store::clone_bytes(&name);
        let inst = Institution { name, did: who, verified: false, registered_at: now };
        proof {
            lemma_entries_map_push(self.insts@, who, inst);
        }
        self.insts.push((who, inst));
        self.events.push(Event::InstitutionRegistered { did: who, name: event_name });
        proof {
            assert(keys_unique(self.insts@));
            assert(self.events_seq() =~= old(self).events_seq().push(
                (EventV::InstitutionRegistered { did: who, name: name_view }),
            ));
        }
        Ok(())
    }

    /// What `verify_institution` and `revoke_institution` return: only the
    /// privileged origin may call them, and the institution must exist.
    pub open spec fn governance_outcome(self, origin: Origin, who: u64) -> Result<(), Error> {
        if origin != Origin::Root {
            Err(Error::BadOrigin)
        } else if !self.institutions_map().contains_key(who) {
            Err(Error::InstitutionNotFound)
        } else {
            Ok(())
        }
    }

    /// Mark an institution as verified (privileged callers only).
    pub fn verify_institution(&mut self, origin: Origin, institution_did: u64) -> (r: Result<
        (),
        Error,
    >)
        requires
            old(self).wf(),
        ensures
            final(self).wf(),
            old(self).same_config(*final(self)),
            r == old(self).governance_outcome(origin, institution_did),
            r is Err ==> *final(self) == *old(self),
            r is Ok ==> final(self).institutions_map() == old(self).institutions_map().insert(
                institution_did,
                (InstitutionV { verified: true, ..old(self).institutions_map()[institution_did] }),
            ),
            r is Ok ==> final(self).documents_map() == old(self).documents_map(),
            r is Ok ==> final(self).events_seq() == old(self).events_seq().push(
                (EventV::InstitutionVerified { did: institution_did }),
            ),
    {
        self.set_verified(origin, institution_did, true)
    }

    /// Withdraw an institution's verification (privileged callers only).
    pub fn revoke_institution(&mut self, origin: Origin, institution_did: u64) -> (r: Result<
        (),
        Error,
    >)
        requires
            old(self).wf(),
        ensures
            final(self).wf(),
            old(self).same_config(*final(self)),
            r == old(self).governance_outcome(origin, institution_did),
            r is Err ==> *final(self) == *old(self),
            r is Ok ==> final(self).institutions_map() == old(self).institutions_map().insert(
                institution_did,
                (InstitutionV { verified: false, ..old(self).institutions_map()[institution_did] }),
            ),
            r is Ok ==> final(self).documents_map() == old(self).documents_map(),
            r is Ok ==> final(self).events_seq() == old(self).events_seq().push(
                (EventV::InstitutionRevoked { did: institution_did }),
            ),
    {
        self.set_verified(origin, institution_did, false)
    }

    /// Shared body of the two governance toggles.
    fn set_verified(&mut self, origin: Origin, who: u64, verified: bool) -> (r: Result<(), Error>)
        requires
            old(self).wf(),
        ensures
            final(self).wf(),
            old(self).same_config(*final(self)),
            r == old(self).governance_outcome(origin, who),
            r is Err ==> *final(self) == *old(self),
            r is Ok ==> final(self).institutions_map() == old(self).institutions_map().insert(
                who,
                (InstitutionV { verified: verified, ..old(self).institutions_map()[who] }),
            ),
            r is Ok ==> final(self).documents_map() == old(self).documents_map(),
            r is Ok ==> final(self).events_seq() == old(self).events_seq().push(
                if verified {
                    (EventV::InstitutionVerified { did: who })
                } else {
                    (EventV::InstitutionRevoked { did: who })
                },
            ),
    {
        if !matches!(origin, Origin::Root) {
            return Err(Error::BadOrigin);
        }
        let found = find_u64(&self.insts, who);
        proof {
            lemma_entries_map_contains::<u64, Institution>(self.insts@, who);
        }
        let i = match found {
            None => {
                return Err(Error::InstitutionNotFound);
            },
            Some(i) => i,
        };
        proof {
            lemma_entries_map_index::<u64, Institution>(self.insts@, i as int);
        }
        let (k, mut inst) = self.insts.remove(i);
        inst.verified = verified;
        self.insts.insert(i, (k, inst));
        let event = if verified {
            Event::InstitutionVerified { did: who }
        } else {
            Event::InstitutionRevoked { did: who }
        };
        self.events.push(event);
        proof {
            assert(self.insts@ =~= old(self).insts@.update(i as int, (k, inst)));
            lemma_entries_map_update(old(self).insts@, i as int, k, inst);
            assert(keys_unique(self.insts@));
            assert(self.events_seq() =~= old(self).events_seq().push(event.deep_view()));
        }
        Ok(())
    }

    /// The stored document of a principal, if any.
    pub fn did_documents(&self, who: u64) -> (r: Option<&DidDocument>)
        requires
            self.wf(),
        ensures
            match r {
                Some(d) => self.documents_map().contains_key(who) && d.deep_view()
                    == self.documents_map()[who],
                None => !self.documents_map().contains_key(who),
            },
    {
        let found = find_u64(&self.docs, who);
        proof {
            lemma_entries_map_contains::<u64, DidDocument>(self.docs@, who);
        }
        match found {
            None => None,
            Some(i) => {
                proof {
                    lemma_entries_map_index::<u64, DidDocument>(self.docs@, i as int);
                }
                Some(&self.docs[i].1)
            },
        }
    }

    /// The stored institution record of a principal, if any.
    pub fn institutions(&self, who: u64) -> (r: Option<&Institution>)
        requires
            self.wf(),
        ensures
            match r {
                Some(inst) => self.institutions_map().contains_key(who) && inst.deep_view()
                    == self.institutions_map()[who],
                None => !self.institutions_map().contains_key(who),
            },
    {
        let found = find_u64(&self.insts, who);
        proof {
            lemma_entries_map_contains::<u64, Institution>(self.insts@, who);
        }
        match found {
            None => None,
            Some(i) => {
                proof {
                    lemma_entries_map_index::<u64, Institution>(self.insts@, i as int);
                }
                Some(&self.insts[i].1)
            },
        }
    }

    /// A full key list rejects a further key: with the document at
    /// capacity, adding cannot succeed — leaving, by `add_public_key`'s
    /// contract, the key list unchanged.
    pub proof fn lemma_key_capacity_enforced(self, who: u64, key_id: Seq<u8>)
        requires
            self.documents_map().contains_key(who),
            self.documents_map()[who].public_keys.len() >= self.max_public_keys,
        ensures
            self.add_public_key_outcome(who, key_id) != Ok::<(), Error>(()),
    {
    }

    /// Every notification emitted so far, oldest first.
    pub fn events(&self) -> (r: &Vec<Event>)
        ensures
            r.deep_view() == self.events_seq(),
    {
        &self.events
    }

    /// The most recent notification, if any was emitted.
    pub fn last_event(&self) -> (r: Option<&Event>)
        ensures
            match r {
                Some(e) => self.events_seq().len() > 0 && e.deep_view()
                    == self.events_seq().last(),
                None => self.events_seq().len() == 0,
            },
    {
        if self.events.len() == 0 {
            None
        } else {
            Some(&self.events[self.events.len() - 1])
        }
    }
}

} // verus!
