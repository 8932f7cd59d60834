//! Credential registry: issuance, revocation, verification and metadata
//! updates for hash-committed credentials.
//!
//! Issuance reads the identity registry (issuer institution verified, both
//! DIDs active) before it touches any of the four indices, so a failed call
//! leaves the registry exactly as it was. A credential's content hash is
//! claimed forever at issuance; its status moves one way, from active to
//! revoked; expiry is evaluated lazily, only when a credential is verified.

use crate::hashing::blake2_of;
use crate::hashing::blake2_256;
use crate::store::entries_map;
use crate::store::find_bytes32;
use crate::store::find_u64;
use crate::store::keys_unique;
use crate::store::lemma_entries_map_contains;
use crate::store::lemma_entries_map_index;
use crate::store::lemma_entries_map_push;
use crate::store::lemma_entries_map_update;
use vstd::bytes::spec_u64_to_le_bytes;
use vstd::bytes::u64_to_le_bytes;
use vstd::prelude::*;

verus! {

broadcast use crate::store::lemma_bytes32_deep_view;

/// The kind of an issued credential.
#[derive(Clone, Copy, PartialEq, Eq, Structural, Debug)]
pub enum CredentialType {
    /// Bachelor's degree.
    Degree,
    /// Master's degree.
    MastersDegree,
    /// Doctorate.
    Doctorate,
    /// Certificate program.
    Certificate,
    /// Academic transcript.
    Transcript,
    /// Professional certification.
    ProfessionalCertification,
    /// Custom credential kind.
    Other,
}

/// Lifecycle status of a credential.
#[derive(Clone, Copy, PartialEq, Eq, Structural, Debug)]
pub enum CredentialStatus {
    /// Valid and in force.
    Active,
    /// Withdrawn by its issuer; final.
    Revoked,
    /// Past its expiry time.
    Expired,
}

/// An issued credential: its identifier, the hash committing to its
/// content, the two principals involved, its kind, free-form metadata,
/// timestamps and lifecycle status.
#[derive(Clone, Debug)]
pub struct Credential {
    pub credential_id: [u8; 32],
    pub credential_hash: [u8; 32],
    pub holder: u64,
    pub issuer: u64,
    pub credential_type: CredentialType,
    pub metadata: Vec<u8>,
    pub issued_at: u64,
    pub expires_at: Option<u64>,
    pub status: CredentialStatus,
}

/// Mathematical image of a [`Credential`].
#[verifier::ext_equal]
pub struct CredentialV {
    pub credential_id: Seq<u8>,
    pub credential_hash: Seq<u8>,
    pub holder: u64,
    pub issuer: u64,
    pub credential_type: CredentialType,
    pub metadata: Seq<u8>,
    pub issued_at: u64,
    pub expires_at: Option<u64>,
    pub status: CredentialStatus,
}

impl DeepView for Credential {
    type V = CredentialV;

    open spec fn deep_view(&self) -> CredentialV {
        CredentialV {
            credential_id: self.credential_id@,
            credential_hash: self.credential_hash@,
            holder: self.holder,
            issuer: self.issuer,
            credential_type: self.credential_type,
            metadata: self.metadata@,
            issued_at: self.issued_at,
            expires_at: self.expires_at,
            status: self.status,
        }
    }
}

/// A lightweight index entry in a holder's credential list.
#[derive(Clone, Copy, Debug)]
pub struct CredentialReference {
    pub credential_id: [u8; 32],
    pub credential_type: CredentialType,
}

/// Mathematical image of a [`CredentialReference`].
#[verifier::ext_equal]
pub struct CredentialReferenceV {
    pub credential_id: Seq<u8>,
    pub credential_type: CredentialType,
}

impl DeepView for CredentialReference {
    type V = CredentialReferenceV;

    open spec fn deep_view(&self) -> CredentialReferenceV {
        CredentialReferenceV {
            credential_id: self.credential_id@,
            credential_type: self.credential_type,
        }
    }
}

/// Everything that can go wrong in the credential registry.
#[derive(Clone, Copy, PartialEq, Eq, Structural, Debug)]
pub enum Error {
    CredentialNotFound,
    CredentialAlreadyExists,
    NotAuthorized,
    IssuerNotVerified,
    IssuerHasNoDid,
    HolderHasNoDid,
    CredentialAlreadyRevoked,
    CredentialExpired,
    TooManyCredentials,
    MetadataTooLarge,
    InvalidCredentialHash,
    CredentialNotActive,
    DidNotActive,
}

/// Notifications the credential registry emits.
#[derive(Clone, PartialEq, Eq, Debug)]
pub enum Event {
    CredentialIssued {
        credential_id: [u8; 32],
        credential_hash: [u8; 32],
        holder: u64,
        issuer: u64,
        credential_type: CredentialType,
    },
    CredentialRevoked { credential_id: [u8; 32], revoked_by: u64 },
    CredentialVerified { credential_id: [u8; 32], verified_by: u64 },
    CredentialMetadataUpdated { credential_id: [u8; 32] },
}

/// Mathematical image of an [`Event`].
#[verifier::ext_equal]
pub enum EventV {
    CredentialIssued {
        credential_id: Seq<u8>,
        credential_hash: Seq<u8>,
        holder: u64,
        issuer: u64,
        credential_type: CredentialType,
    },
    CredentialRevoked { credential_id: Seq<u8>, revoked_by: u64 },
    CredentialVerified { credential_id: Seq<u8>, verified_by: u64 },
    CredentialMetadataUpdated { credential_id: Seq<u8> },
}

impl DeepView for Event {
    type V = EventV;

    open spec fn deep_view(&self) -> EventV {
        match self {
            Event::CredentialIssued {
                credential_id,
                credential_hash,
                holder,
                issuer,
                credential_type,
            } => EventV::CredentialIssued {
                credential_id: credential_id@,
                credential_hash: credential_hash@,
                holder: *holder,
                issuer: *issuer,
                credential_type: *credential_type,
            },
            Event::CredentialRevoked { credential_id, revoked_by } => EventV::CredentialRevoked {
                credential_id: credential_id@,
                revoked_by: *revoked_by,
            },
            Event::CredentialVerified { credential_id, verified_by } => EventV::CredentialVerified {
                credential_id: credential_id@,
                verified_by: *verified_by,
            },
            Event::CredentialMetadataUpdated { credential_id } => {
                EventV::CredentialMetadataUpdated { credential_id: credential_id@ }
            },
        }
    }
}

/// The identifier a credential minted with this counter value, issuer and
/// holder receives: the digest of the three, each as eight little-endian
/// bytes.
pub open spec fn credential_id_of(counter: u64, issuer: u64, holder: u64) -> Seq<u8> {
    blake2_of(
        spec_u64_to_le_bytes(counter) + spec_u64_to_le_bytes(issuer) + spec_u64_to_le_bytes(
            holder,
        ),
    )
}

/// The counter after minting one credential (saturating).
pub open spec fn next_counter(c: u64) -> u64 {
    if c == u64::MAX {
        c
    } else {
        (c + 1) as u64
    }
}

/// The credential registry: the credential table, its three indices, the
/// identifier counter, the capacity bounds fixed at construction and the
/// ordered notification log.
pub struct Pallet {
    pub creds: Vec<([u8; 32], Credential)>,
    pub by_holder: Vec<(u64, Vec<CredentialReference>)>,
    pub by_issuer: Vec<(u64, Vec<[u8; 32]>)>,
    pub by_hash: Vec<([u8; 32], [u8; 32])>,
    pub next_id: u64,
    pub max_metadata_size: u32,
    pub max_credentials_per_holder: u32,
    pub events: Vec<Event>,
}

impl Pallet {
    /// Credentials by identifier.
    pub open spec fn credentials_map(self) -> Map<Seq<u8>, CredentialV> {
        entries_map(self.creds@)
    }

    /// Holder index: each holder's credential references.
    pub open spec fn by_holder_map(self) -> Map<u64, Seq<CredentialReferenceV>> {
        entries_map(self.by_holder@)
    }

    /// Issuer index: each issuer's credential identifiers.
    pub open spec fn by_issuer_map(self) -> Map<u64, Seq<Seq<u8>>> {
        entries_map(self.by_issuer@)
    }

    /// Content hash to credential identifier.
    pub open spec fn by_hash_map(self) -> Map<Seq<u8>, Seq<u8>> {
        entries_map(self.by_hash@)
    }

    /// The notifications emitted so far, oldest first.
    pub open spec fn events_seq(self) -> Seq<EventV> {
        self.events.deep_view()
    }

    /// A holder's reference list; empty if the holder has none.
    pub open spec fn holder_refs(self, who: u64) -> Seq<CredentialReferenceV> {
        if self.by_holder_map().contains_key(who) {
            self.by_holder_map()[who]
        } else {
            Seq::empty()
        }
    }

    /// An issuer's identifier list; empty if the issuer has none.
    pub open spec fn issuer_ids(self, who: u64) -> Seq<Seq<u8>> {
        if self.by_issuer_map().contains_key(who) {
            self.by_issuer_map()[who]
        } else {
            Seq::empty()
        }
    }

    /// Table keys are pairwise distinct.
    pub open spec fn wf(self) -> bool {
        keys_unique(self.creds@) && keys_unique(self.by_holder@) && keys_unique(self.by_issuer@)
            && keys_unique(self.by_hash@)
    }

    /// The capacity bounds never change after construction.
    pub open spec fn same_config(self, other: Pallet) -> bool {
        self.max_metadata_size == other.max_metadata_size && self.max_credentials_per_holder
            == other.max_credentials_per_holder
    }

    /// An empty registry with the given bounds: metadata of at most
    /// `max_metadata_size` bytes, and per-principal index lists of at most
    /// `max_credentials_per_holder` entries.
    pub fn new(max_metadata_size: u32, max_credentials_per_holder: u32) -> (r: Pallet)
        ensures
            r.wf(),
            r.credentials_map() == Map::<Seq<u8>, CredentialV>::empty(),
            r.by_holder_map() == Map::<u64, Seq<CredentialReferenceV>>::empty(),
            r.by_issuer_map() == Map::<u64, Seq<Seq<u8>>>::empty(),
            r.by_hash_map() == Map::<Seq<u8>, Seq<u8>>::empty(),
            r.next_id == 0,
            r.events_seq() == Seq::<EventV>::empty(),
            r.max_metadata_size == max_metadata_size,
            r.max_credentials_per_holder == max_credentials_per_holder,
            r.index_inv(),
    {
        let r = Pallet {
            creds: Vec::new(),
            by_holder: Vec::new(),
            by_issuer: Vec::new(),
            by_hash: Vec::new(),
            next_id: 0,
            max_metadata_size,
            max_credentials_per_holder,
            events: Vec::new(),
        };
        proof {
            assert(r.events_seq() =~= Seq::<EventV>::empty());
            r.lemma_empty_index_inv();
        }
        r
    }

    /// The identity-registry checks issuance makes, in order: the issuer is
    /// a verified institution and both principals hold active documents.
    pub open spec fn issuance_authorized(
        identity: crate::did::Pallet,
        issuer: u64,
        holder: u64,
    ) -> bool {
        let insts = identity.institutions_map();
        let docs = identity.documents_map();
        &&& insts.contains_key(issuer)
        &&& insts[issuer].verified
        &&& docs.contains_key(issuer)
        &&& docs[issuer].active
        &&& docs.contains_key(holder)
        &&& docs[holder].active
    }

    /// What `issue_credential` returns: the identity checks in order, then
    /// content-hash uniqueness, then capacity of the two index lists.
    pub open spec fn issue_outcome(
        self,
        identity: crate::did::Pallet,
        issuer: u64,
        holder: u64,
        credential_hash: Seq<u8>,
    ) -> Result<(), Error> {
        let insts = identity.institutions_map();
        let docs = identity.documents_map();
        if !insts.contains_key(issuer) || !insts[issuer].verified {
            Err(Error::IssuerNotVerified)
        } else if !docs.contains_key(issuer) {
            Err(Error::IssuerHasNoDid)
        } else if !docs[issuer].active {
            Err(Error::DidNotActive)
        } else if !docs.contains_key(holder) {
            Err(Error::HolderHasNoDid)
        } else if !docs[holder].active {
            Err(Error::DidNotActive)
        } else if self.by_hash_map().contains_key(credential_hash) {
            Err(Error::CredentialAlreadyExists)
        } else if self.holder_refs(holder).len() >= self.max_credentials_per_holder {
            Err(Error::TooManyCredentials)
        } else if self.issuer_ids(issuer).len() >= self.max_credentials_per_holder {
            Err(Error::TooManyCredentials)
        } else {
            Ok(())
        }
    }

    /// The credential a successful issuance stores.
    pub open spec fn issued_credential(
        self,
        issuer: u64,
        holder: u64,
        credential_hash: Seq<u8>,
        credential_type: CredentialType,
        metadata: Seq<u8>,
        expires_at: Option<u64>,
        now: u64,
    ) -> CredentialV {
        CredentialV {
            credential_id: credential_id_of(self.next_id, issuer, holder),
            credential_hash: credential_hash,
            holder: holder,
            issuer: issuer,
            credential_type: credential_type,
            metadata: metadata,
            issued_at: now,
            expires_at: expires_at,
            status: CredentialStatus::Active,
        }
    }

    /// Issue a credential from `issuer` to `holder`, committed to by
    /// `credential_hash`. All validation precedes every write: a failed
    /// call leaves the registry unchanged.
    pub fn issue_credential(
        &mut self,
        identity: &crate::did::Pallet,
        issuer: u64,
        holder: u64,
        credential_hash: [u8; 32],
        credential_type: CredentialType,
        metadata: Vec<u8>,
        expires_at: Option<u64>,
        now: u64,
    ) -> (r: Result<(), Error>)
        requires
            old(self).wf(),
            identity.wf(),
            metadata@.len() <= old(self).max_metadata_size,
        ensures
            final(self).wf(),
            old(self).same_config(*final(self)),
            r == old(self).issue_outcome(*identity, issuer, holder, credential_hash@),
            r is Err ==> *final(self) == *old(self),
            r is Ok ==> final(self).next_id == next_counter(old(self).next_id),
            r is Ok ==> final(self).credentials_map() == old(self).credentials_map().insert(
                credential_id_of(old(self).next_id, issuer, holder),
                old(self).issued_credential(
                    issuer,
                    holder,
                    credential_hash@,
                    credential_type,
                    metadata@,
                    expires_at,
                    now,
                ),
            ),
            r is Ok ==> final(self).by_holder_map() == old(self).by_holder_map().insert(
                holder,
                old(self).holder_refs(holder).push(
                    (CredentialReferenceV {
                        credential_id: credential_id_of(old(self).next_id, issuer, holder),
                        credential_type: credential_type,
                    }),
                ),
            ),
            r is Ok ==> final(self).by_issuer_map() == old(self).by_issuer_map().insert(
                issuer,
                old(self).issuer_ids(issuer).push(
                    credential_id_of(old(self).next_id, issuer, holder),
                ),
            ),
            r is Ok ==> final(self).by_hash_map() == old(self).by_hash_map().insert(
                credential_hash@,
                credential_id_of(old(self).next_id, issuer, holder),
            ),
            r is Ok ==> final(self).events_seq() == old(self).events_seq().push(
                (EventV::CredentialIssued {
                    credential_id: credential_id_of(old(self).next_id, issuer, holder),
                    credential_hash: credential_hash@,
                    holder: holder,
                    issuer: issuer,
                    credential_type: credential_type,
                }),
            ),
            (r is Ok && old(self).index_inv() && !old(self).credentials_map().contains_key(
                credential_id_of(old(self).next_id, issuer, holder),
            )) ==> final(self).index_inv(),
    {
        match identity.institutions(issuer) {
            None => {
                return Err(Error::IssuerNotVerified);
            },
            Some(inst) => {
                if !inst.verified {
                    return Err(Error::IssuerNotVerified);
                }
            },
        }
        match identity.did_documents(issuer) {
            None => {
                return Err(Error::IssuerHasNoDid);
            },
            Some(doc) => {
                if !doc.active {
                    return Err(Error::DidNotActive);
                }
            },
        }
        match identity.did_documents(holder) {
            None => {
                return Err(Error::HolderHasNoDid);
            },
            Some(doc) => {
                if !doc.active {
                    return Err(Error::DidNotActive);
                }
            },
        }
        let hash_found = find_bytes32(&self.by_hash, &credential_hash);
        proof {
            lemma_entries_map_contains::<[u8; 32], [u8; 32]>(self.by_hash@, credential_hash@);
        }
        if hash_found.is_some() {
            return Err(Error::CredentialAlreadyExists);
        }
        let holder_idx = find_u64(&self.by_holder, holder);
        proof {
            lemma_entries_map_contains::<u64, Vec<CredentialReference>>(self.by_holder@, holder);
        }
        let holder_len: usize = match holder_idx {
            Some(i) => {
                proof {
                    lemma_entries_map_index::<u64, Vec<CredentialReference>>(
                        self.by_holder@,
                        i as int,
                    );
                }
                self.by_holder[i].1.len()
            },
            None => 0,
        };
        if holder_len >= self.max_credentials_per_holder as usize {
            return Err(Error::TooManyCredentials);
        }
        let issuer_idx = find_u64(&self.by_issuer, issuer);
        proof {
            lemma_entries_map_contains::<u64, Vec<[u8; 32]>>(self.by_issuer@, issuer);
        }
        let issuer_len: usize = match issuer_idx {
            Some(i) => {
                proof {
                    lemma_entries_map_index::<u64, Vec<[u8; 32]>>(self.by_issuer@, i as int);
                }
                self.by_issuer[i].1.len()
            },
            None => 0,
        };
        if issuer_len >= self.max_credentials_per_holder as usize {
            return Err(Error::TooManyCredentials);
        }
        // All checks passed: commit every write.
        let ghost metadata_view = metadata@;
        let counter = self.next_id;
        let credential_id = Self::generate_credential_id(counter, issuer, holder);
        self.next_id = if counter == u64::MAX {
            u64::MAX
        } else {
            counter + 1
        };
        let credential = Credential {
            credential_id,
            credential_hash,
            holder,
            issuer,
            credential_type,
            metadata,
            issued_at: now,
            expires_at,
            status: CredentialStatus::Active,
        };
        let cred_found = find_bytes32(&self.creds, &credential_id);
        match cred_found {
            Some(j) => {
                let (k, _replaced) = self.creds.remove(j);
                self.creds.insert(j, (k, credential));
                proof {
                    assert(self.creds@ =~= old(self).creds@.update(j as int, (k, credential)));
                    lemma_entries_map_update(old(self).creds@, j as int, k, credential);
                    assert(keys_unique(self.creds@));
                }
            },
            None => {
                proof {
                    lemma_entries_map_push(self.creds@, credential_id, credential);
                }
                self.creds.push((credential_id, credential));
                proof {
                    assert(keys_unique(self.creds@));
                }
            },
        }
        let reference = CredentialReference { credential_id, credential_type };
        match holder_idx {
            Some(i) => {
                let (k, mut list) = self.by_holder.remove(i);
                let ghost old_list = list.deep_view();
                list.push(reference);
                proof {
                    assert(list.deep_view() =~= old_list.push(reference.deep_view()));
                }
                self.by_holder.insert(i, (k, list));
                proof {
                    assert(self.by_holder@ =~= old(self).by_holder@.update(i as int, (k, list)));
                    lemma_entries_map_update(old(self).by_holder@, i as int, k, list);
                    assert(keys_unique(self.by_holder@));
                }
            },
            None => {
                let mut list: Vec<CredentialReference> = Vec::new();
                list.push(reference);
                proof {
                    lemma_entries_map_push(self.by_holder@, holder, list);
                    assert(list.deep_view() =~= old(self).holder_refs(holder).push(
                        reference.deep_view(),
                    ));
                }
                self.by_holder.push((holder, list));
                proof {
                    assert(keys_unique(self.by_holder@));
                }
            },
        }
        match issuer_idx {
            Some(i) => {
                let (k, mut list) = self.by_issuer.remove(i);
                let ghost old_list = list.deep_view();
                list.push(credential_id);
                proof {
                    assert(list.deep_view() =~= old_list.push(credential_id@));
                }
                self.by_issuer.insert(i, (k, list));
                proof {
                    assert(self.by_issuer@ =~= old(self).by_issuer@.update(i as int, (k, list)));
                    lemma_entries_map_update(old(self).by_issuer@, i as int, k, list);
                    assert(keys_unique(self.by_issuer@));
                }
            },
            None => {
                let mut list: Vec<[u8; 32]> = Vec::new();
                list.push(credential_id);
                proof {
                    lemma_entries_map_push(self.by_issuer@, issuer, list);
                    assert(list.deep_view() =~= old(self).issuer_ids(issuer).push(credential_id@));
                }
                self.by_issuer.push((issuer, list));
                proof {
                    assert(keys_unique(self.by_issuer@));
                }
            },
        }
        proof {
            lemma_entries_map_push(self.by_hash@, credential_hash, credential_id);
        }
        self.by_hash.push((credential_hash, credential_id));
        self.events.push(
            Event::CredentialIssued {
                credential_id,
                credential_hash,
                holder,
                issuer,
                credential_type,
            },
        );
        proof {
            assert(keys_unique(self.by_hash@));
            assert(self.events_seq() =~= old(self).events_seq().push(
                (EventV::CredentialIssued {
                    credential_id: credential_id_of(counter, issuer, holder),
                    credential_hash: credential_hash@,
                    holder: holder,
                    issuer: issuer,
                    credential_type: credential_type,
                }),
            ));
            if old(self).index_inv() && !old(self).credentials_map().contains_key(
                credential_id_of(counter, issuer, holder),
            ) {
                Self::lemma_issue_preserves_index_inv(
                    *old(self),
                    *self,
                    issuer,
                    holder,
                    credential_hash@,
                    credential_type,
                    metadata_view,
                    expires_at,
                    now,
                );
            }
        }
        Ok(())
    }

    /// The identifier of the credential minted at this counter value:
    /// the digest of counter, issuer and holder, each as eight
    /// little-endian bytes.
    fn generate_credential_id(counter: u64, issuer: u64, holder: u64) -> (r: [u8; 32])
        ensures
            r@ == credential_id_of(counter, issuer, holder),
    {
        let mut data = u64_to_le_bytes(counter);
        let mut issuer_bytes = u64_to_le_bytes(issuer);
        let mut holder_bytes = u64_to_le_bytes(holder);
        data.append(&mut issuer_bytes);
        data.append(&mut holder_bytes);
        blake2_256(data.as_slice())
    }

    /// What `revoke_credential` returns: the credential must exist, only
    /// its issuer may revoke, and only a credential still in force can be
    /// revoked — any other status is rejected as already revoked.
    pub open spec fn revoke_outcome(self, revoker: u64, credential_id: Seq<u8>) -> Result<
        (),
        Error,
    > {
        if !self.credentials_map().contains_key(credential_id) {
            Err(Error::CredentialNotFound)
        } else {
            let c = self.credentials_map()[credential_id];
            if c.issuer != revoker {
                Err(Error::NotAuthorized)
            } else if c.status != CredentialStatus::Active {
                Err(Error::CredentialAlreadyRevoked)
            } else {
                Ok(())
            }
        }
    }

    /// Revoke a credential; only its issuer may, and only once.
    pub fn revoke_credential(&mut self, revoker: u64, credential_id: [u8; 32]) -> (r: Result<
        (),
        Error,
    >)
        requires
            old(self).wf(),
        ensures
            final(self).wf(),
            old(self).same_config(*final(self)),
            final(self).next_id == old(self).next_id,
            r == old(self).revoke_outcome(revoker, credential_id@),
            r is Err ==> *final(self) == *old(self),
            r is Ok ==> final(self).credentials_map() == old(self).credentials_map().insert(
                credential_id@,
                (CredentialV {
                    status: CredentialStatus::Revoked,
                    ..old(self).credentials_map()[credential_id@]
                }),
            ),
            r is Ok ==> final(self).by_holder_map() == old(self).by_holder_map(),
            r is Ok ==> final(self).by_issuer_map() == old(self).by_issuer_map(),
            r is Ok ==> final(self).by_hash_map() == old(self).by_hash_map(),
            r is Ok ==> final(self).events_seq() == old(self).events_seq().push(
                (EventV::CredentialRevoked { credential_id: credential_id@, revoked_by: revoker }),
            ),
            (r is Ok && old(self).index_inv()) ==> final(self).index_inv(),
    {
        let found = find_bytes32(&self.creds, &credential_id);
        proof {
            lemma_entries_map_contains::<[u8; 32], Credential>(self.creds@, credential_id@);
        }
        let i = match found {
            None => {
                return Err(Error::CredentialNotFound);
            },
            Some(i) => i,
        };
        proof {
            lemma_entries_map_index::<[u8; 32], Credential>(self.creds@, i as int);
        }
        if self.creds[i].1.issuer != revoker {
            return Err(Error::NotAuthorized);
        }
        if !matches!(self.creds[i].1.status, CredentialStatus::Active) {
            return Err(Error::CredentialAlreadyRevoked);
        }
        let (k, mut credential) = self.creds.remove(i);
        credential.status = CredentialStatus::Revoked;
        self.creds.insert(i, (k, credential));
        self.events.push(Event::CredentialRevoked { credential_id, revoked_by: revoker });
        proof {
            assert(self.creds@ =~= old(self).creds@.update(i as int, (k, credential)));
            lemma_entries_map_update(old(self).creds@, i as int, k, credential);
            assert(keys_unique(self.creds@));
            assert(self.events_seq() =~= old(self).events_seq().push(
                (EventV::CredentialRevoked { credential_id: credential_id@, revoked_by: revoker }),
            ));
            if old(self).index_inv() {
                Self::lemma_update_preserves_index_inv(
                    *old(self),
                    *self,
                    credential_id@,
                    credential.deep_view(),
                );
            }
        }
        Ok(())
    }

    /// What `verify_credential` returns: the hash must be bound to a stored
    /// credential, the credential must be active, and — evaluated only now,
    /// at verification time — not past its expiry.
    pub open spec fn verify_outcome(self, credential_hash: Seq<u8>, now: u64) -> Result<
        (),
        Error,
    > {
        if !self.by_hash_map().contains_key(credential_hash) {
            Err(Error::CredentialNotFound)
        } else {
            let id = self.by_hash_map()[credential_hash];
            if !self.credentials_map().contains_key(id) {
                Err(Error::CredentialNotFound)
            } else {
                let c = self.credentials_map()[id];
                if c.status != CredentialStatus::Active {
                    Err(Error::CredentialNotActive)
                } else if c.expires_at matches Some(t) && now > t {
                    Err(Error::CredentialExpired)
                } else {
                    Ok(())
                }
            }
        }
    }

    /// Verify the credential committed to by `credential_hash` at logical
    /// time `now`. No credential is mutated — in particular an expired
    /// credential keeps its stored status — only a notification is emitted
    /// on success.
    pub fn verify_credential(&mut self, verifier: u64, credential_hash: [u8; 32], now: u64) -> (r:
        Result<(), Error>)
        requires
            old(self).wf(),
        ensures
            final(self).wf(),
            old(self).same_config(*final(self)),
            final(self).next_id == old(self).next_id,
            r == old(self).verify_outcome(credential_hash@, now),
            final(self).credentials_map() == old(self).credentials_map(),
            final(self).by_holder_map() == old(self).by_holder_map(),
            final(self).by_issuer_map() == old(self).by_issuer_map(),
            final(self).by_hash_map() == old(self).by_hash_map(),
            r is Err ==> *final(self) == *old(self),
            r is Ok ==> final(self).events_seq() == old(self).events_seq().push(
                (EventV::CredentialVerified {
                    credential_id: old(self).by_hash_map()[credential_hash@],
                    verified_by: verifier,
                }),
            ),
    {
        let hash_found = find_bytes32(&self.by_hash, &credential_hash);
        proof {
            lemma_entries_map_contains::<[u8; 32], [u8; 32]>(self.by_hash@, credential_hash@);
        }
        let hi = match hash_found {
            None => {
                return Err(Error::CredentialNotFound);
            },
            Some(i) => i,
        };
        proof {
            lemma_entries_map_index::<[u8; 32], [u8; 32]>(self.by_hash@, hi as int);
        }
        let credential_id = self.by_hash[hi].1;
        let found = find_bytes32(&self.creds, &credential_id);
        proof {
            lemma_entries_map_contains::<[u8; 32], Credential>(self.creds@, credential_id@);
        }
        let i = match found {
            None => {
                return Err(Error::CredentialNotFound);
            },
            Some(i) => i,
        };
        proof {
            lemma_entries_map_index::<[u8; 32], Credential>(self.creds@, i as int);
        }
        if !matches!(self.creds[i].1.status, CredentialStatus::Active) {
            return Err(Error::CredentialNotActive);
        }
        if let Some(expires_at) = self.creds[i].1.expires_at {
            if now > expires_at {
                return Err(Error::CredentialExpired);
            }
        }
        self.events.push(Event::CredentialVerified { credential_id, verified_by: verifier });
        proof {
            assert(self.events_seq() =~= old(self).events_seq().push(
                (EventV::CredentialVerified {
                    credential_id: old(self).by_hash_map()[credential_hash@],
                    verified_by: verifier,
                }),
            ));
        }
        Ok(())
    }

    /// What `update_credential_metadata` returns: the credential must
    /// exist, only its issuer may update it, and only while it is active.
    pub open spec fn update_metadata_outcome(self, updater: u64, credential_id: Seq<u8>) -> Result<
        (),
        Error,
    > {
        if !self.credentials_map().contains_key(credential_id) {
            Err(Error::CredentialNotFound)
        } else {
            let c = self.credentials_map()[credential_id];
            if c.issuer != updater {
                Err(Error::NotAuthorized)
            } else if c.status != CredentialStatus::Active {
                Err(Error::CredentialNotActive)
            } else {
                Ok(())
            }
        }
    }

    /// Replace a credential's metadata wholesale; only its issuer may, and
    /// only while the credential is active.
    pub fn update_credential_metadata(
        &mut self,
        updater: u64,
        credential_id: [u8; 32],
        new_metadata: Vec<u8>,
    ) -> (r: Result<(), Error>)
        requires
            old(self).wf(),
            new_metadata@.len() <= old(self).max_metadata_size,
        ensures
            final(self).wf(),
            old(self).same_config(*final(self)),
            final(self).next_id == old(self).next_id,
            r == old(self).update_metadata_outcome(updater, credential_id@),
            r is Err ==> *final(self) == *old(self),
            r is Ok ==> final(self).credentials_map() == old(self).credentials_map().insert(
                credential_id@,
                (CredentialV {
                    metadata: new_metadata@,
                    ..old(self).credentials_map()[credential_id@]
                }),
            ),
            r is Ok ==> final(self).by_holder_map() == old(self).by_holder_map(),
            r is Ok ==> final(self).by_issuer_map() == old(self).by_issuer_map(),
            r is Ok ==> final(self).by_hash_map() == old(self).by_hash_map(),
            r is Ok ==> final(self).events_seq() == old(self).events_seq().push(
                (EventV::CredentialMetadataUpdated { credential_id: credential_id@ }),
            ),
            (r is Ok && old(self).index_inv()) ==> final(self).index_inv(),
    {
        let found = find_bytes32(&self.creds, &credential_id);
        proof {
            lemma_entries_map_contains::<[u8; 32], Credential>(self.creds@, credential_id@);
        }
        let i = match found {
            None => {
                return Err(Error::CredentialNotFound);
            },
            Some(i) => i,
        };
        proof {
            lemma_entries_map_index::<[u8; 32], Credential>(self.creds@, i as int);
        }
        if self.creds[i].1.issuer != updater {
            return Err(Error::NotAuthorized);
        }
        if !matches!(self.creds[i].1.status, CredentialStatus::Active) {
            return Err(Error::CredentialNotActive);
        }
        let (k, mut credential) = self.creds.remove(i);
        credential.metadata = new_metadata;
        self.creds.insert(i, (k, credential));
        self.events.push(Event::CredentialMetadataUpdated { credential_id });
        proof {
            assert(self.creds@ =~= old(self).creds@.update(i as int, (k, credential)));
            lemma_entries_map_update(old(self).creds@, i as int, k, credential);
            assert(keys_unique(self.creds@));
            assert(self.events_seq() =~= old(self).events_seq().push(
                (EventV::CredentialMetadataUpdated { credential_id: credential_id@ }),
            ));
            if old(self).index_inv() {
                Self::lemma_update_preserves_index_inv(
                    *old(self),
                    *self,
                    credential_id@,
                    credential.deep_view(),
                );
            }
        }
        Ok(())
    }

    /// The stored credential with this identifier, if any.
    pub fn credentials(&self, credential_id: [u8; 32]) -> (r: Option<&Credential>)
        requires
            self.wf(),
        ensures
            match r {
                Some(c) => self.credentials_map().contains_key(credential_id@) && c.deep_view()
                    == self.credentials_map()[credential_id@],
                None => !self.credentials_map().contains_key(credential_id@),
            },
    {
        let found = find_bytes32(&self.creds, &credential_id);
        proof {
            lemma_entries_map_contains::<[u8; 32], Credential>(self.creds@, credential_id@);
        }
        match found {
            None => None,
            Some(i) => {
                proof {
                    lemma_entries_map_index::<[u8; 32], Credential>(self.creds@, i as int);
                }
                Some(&self.creds[i].1)
            },
        }
    }

    /// The identifier bound to this content hash, if any.
    pub fn credential_by_hash(&self, credential_hash: [u8; 32]) -> (r: Option<[u8; 32]>)
        requires
            self.wf(),
        ensures
            match r {
                Some(id) => self.by_hash_map().contains_key(credential_hash@) && id@
                    == self.by_hash_map()[credential_hash@],
                None => !self.by_hash_map().contains_key(credential_hash@),
            },
    {
        let found = find_bytes32(&self.by_hash, &credential_hash);
        proof {
            lemma_entries_map_contains::<[u8; 32], [u8; 32]>(self.by_hash@, credential_hash@);
        }
        match found {
            None => None,
            Some(i) => {
                proof {
                    lemma_entries_map_index::<[u8; 32], [u8; 32]>(self.by_hash@, i as int);
                }
                Some(self.by_hash[i].1)
            },
        }
    }

    /// A holder's credential references; empty if the holder has none.
    pub fn credentials_by_holder(&self, who: u64) -> (r: Vec<CredentialReference>)
        requires
            self.wf(),
        ensures
            r.deep_view() == self.holder_refs(who),
    {
        let found = find_u64(&self.by_holder, who);
        proof {
            lemma_entries_map_contains::<u64, Vec<CredentialReference>>(self.by_holder@, who);
        }
        match found {
            None => {
                let r: Vec<CredentialReference> = Vec::new();
                proof {
                    assert(r.deep_view() =~= self.holder_refs(who));
                }
                r
            },
            Some(i) => {
                proof {
                    lemma_entries_map_index::<u64, Vec<CredentialReference>>(
                        self.by_holder@,
                        i as int,
                    );
                }
                let list = &self.by_holder[i].1;
                let r = crate::store::clone_copy_vec(list);
                proof {
                    assert(r.deep_view() =~= list.deep_view());
                }
                r
            },
        }
    }

    /// An issuer's credential identifiers; empty if the issuer has none.
    pub fn credentials_by_issuer(&self, who: u64) -> (r: Vec<[u8; 32]>)
        requires
            self.wf(),
        ensures
            r.deep_view() == self.issuer_ids(who),
    {
        let found = find_u64(&self.by_issuer, who);
        proof {
            lemma_entries_map_contains::<u64, Vec<[u8; 32]>>(self.by_issuer@, who);
        }
        match found {
            None => {
                let r: Vec<[u8; 32]> = Vec::new();
                proof {
                    assert(r.deep_view() =~= self.issuer_ids(who));
                }
                r
            },
            Some(i) => {
                proof {
                    lemma_entries_map_index::<u64, Vec<[u8; 32]>>(self.by_issuer@, i as int);
                }
                let list = &self.by_issuer[i].1;
                let r = crate::store::clone_copy_vec(list);
                proof {
                    assert(r.deep_view() =~= list.deep_view());
                }
                r
            },
        }
    }

    /// The counter the next issued credential's identifier is minted from.
    pub fn next_credential_id(&self) -> (r: u64)
        ensures
            r == self.next_id,
    {
        self.next_id
    }

    /// Every notification emitted so far, oldest first.
    pub fn events(&self) -> (r: &Vec<Event>)
        ensures
            r.deep_view() == self.events_seq(),
    {
        &self.events
    }

    /// The most recent notification, if any was emitted.
    pub fn last_event(&self) -> (r: Option<&Event>)
        ensures
            match r {
                Some(e) => self.events_seq().len() > 0 && e.deep_view()
                    == self.events_seq().last(),
                None => self.events_seq().len() == 0,
            },
    {
        if self.events.len() == 0 {
            None
        } else {
            Some(&self.events[self.events.len() - 1])
        }
    }

    /// Referential integrity of the four indices: every stored credential
    /// carries its own key and is bound to its content hash in the hash
    /// index; every hash-index entry points back at a credential carrying
    /// that hash; every holder-index reference and every issuer-index
    /// identifier names an existing credential of that holder or issuer.
    pub open spec fn index_inv(self) -> bool {
        &&& forall|id: Seq<u8>| #[trigger] self.credentials_map().contains_key(id)
            ==> self.credentials_map()[id].credential_id == id && self.by_hash_map().contains_key(
            self.credentials_map()[id].credential_hash,
        ) && self.by_hash_map()[self.credentials_map()[id].credential_hash] == id
        &&& forall|h: Seq<u8>| #[trigger] self.by_hash_map().contains_key(h)
            ==> self.credentials_map().contains_key(self.by_hash_map()[h])
                && self.credentials_map()[self.by_hash_map()[h]].credential_hash == h
        &&& forall|who: u64, j: int|
            0 <= j < self.holder_refs(who).len() ==> self.credentials_map().contains_key(
                (#[trigger] self.holder_refs(who)[j]).credential_id,
            ) && self.credentials_map()[self.holder_refs(who)[j].credential_id].holder == who
                && self.credentials_map()[self.holder_refs(who)[j].credential_id].credential_type
                == self.holder_refs(who)[j].credential_type
        &&& forall|who: u64, j: int|
            0 <= j < self.issuer_ids(who).len() ==> self.credentials_map().contains_key(
                #[trigger] self.issuer_ids(who)[j],
            ) && self.credentials_map()[self.issuer_ids(who)[j]].issuer == who
    }

    /// An empty registry satisfies referential integrity.
    pub proof fn lemma_empty_index_inv(self)
        requires
            self.credentials_map() == Map::<Seq<u8>, CredentialV>::empty(),
            self.by_holder_map() == Map::<u64, Seq<CredentialReferenceV>>::empty(),
            self.by_issuer_map() == Map::<u64, Seq<Seq<u8>>>::empty(),
            self.by_hash_map() == Map::<Seq<u8>, Seq<u8>>::empty(),
        ensures
            self.index_inv(),
    {
    }

    /// With referential integrity, the hash index is injective: distinct
    /// content hashes are bound to distinct credential identifiers.
    pub proof fn lemma_hash_index_injective(self, h1: Seq<u8>, h2: Seq<u8>)
        requires
            self.index_inv(),
            self.by_hash_map().contains_key(h1),
            self.by_hash_map().contains_key(h2),
            h1 != h2,
        ensures
            self.by_hash_map()[h1] != self.by_hash_map()[h2],
    {
        if self.by_hash_map()[h1] == self.by_hash_map()[h2] {
            assert(self.credentials_map()[self.by_hash_map()[h1]].credential_hash == h1);
            assert(self.credentials_map()[self.by_hash_map()[h2]].credential_hash == h2);
        }
    }

    /// A successful issuance preserves referential integrity, provided the
    /// minted identifier is fresh — the digest of the counter, issuer and
    /// holder collides with no stored identifier. The pre- and post-states
    /// are related exactly as `issue_credential`'s contract relates them.
    pub proof fn lemma_issue_preserves_index_inv(
        pre: Pallet,
        post: Pallet,
        issuer: u64,
        holder: u64,
        credential_hash: Seq<u8>,
        credential_type: CredentialType,
        metadata: Seq<u8>,
        expires_at: Option<u64>,
        now: u64,
    )
        requires
            pre.index_inv(),
            !pre.by_hash_map().contains_key(credential_hash),
            !pre.credentials_map().contains_key(credential_id_of(pre.next_id, issuer, holder)),
            post.credentials_map() == pre.credentials_map().insert(
                credential_id_of(pre.next_id, issuer, holder),
                pre.issued_credential(
                    issuer,
                    holder,
                    credential_hash,
                    credential_type,
                    metadata,
                    expires_at,
                    now,
                ),
            ),
            post.by_holder_map() == pre.by_holder_map().insert(
                holder,
                pre.holder_refs(holder).push(
                    (CredentialReferenceV {
                        credential_id: credential_id_of(pre.next_id, issuer, holder),
                        credential_type: credential_type,
                    }),
                ),
            ),
            post.by_issuer_map() == pre.by_issuer_map().insert(
                issuer,
                pre.issuer_ids(issuer).push(credential_id_of(pre.next_id, issuer, holder)),
            ),
            post.by_hash_map() == pre.by_hash_map().insert(
                credential_hash,
                credential_id_of(pre.next_id, issuer, holder),
            ),
        ensures
            post.index_inv(),
    {
        let id = credential_id_of(pre.next_id, issuer, holder);
        assert forall|who: u64, j: int| 0 <= j < post.holder_refs(who).len() implies {
            &&& post.credentials_map().contains_key(
                (#[trigger] post.holder_refs(who)[j]).credential_id,
            )
            &&& post.credentials_map()[post.holder_refs(who)[j].credential_id].holder == who
            &&& post.credentials_map()[post.holder_refs(who)[j].credential_id].credential_type
                == post.holder_refs(who)[j].credential_type
        } by {
            if who == holder {
                if j < pre.holder_refs(holder).len() {
                    assert(post.holder_refs(who)[j] == pre.holder_refs(who)[j]);
                }
            } else {
                assert(post.holder_refs(who) == pre.holder_refs(who));
            }
        }
        assert forall|who: u64, j: int| 0 <= j < post.issuer_ids(who).len() implies {
            &&& post.credentials_map().contains_key(#[trigger] post.issuer_ids(who)[j])
            &&& post.credentials_map()[post.issuer_ids(who)[j]].issuer == who
        } by {
            if who == issuer {
                if j < pre.issuer_ids(issuer).len() {
                    assert(post.issuer_ids(who)[j] == pre.issuer_ids(who)[j]);
                }
            } else {
                assert(post.issuer_ids(who) == pre.issuer_ids(who));
            }
        }
    }

    /// Updating a stored credential in place — changing neither its
    /// identifier, its content hash, its holder, its issuer nor its kind,
    /// as revocation and metadata updates do — preserves referential
    /// integrity.
    pub proof fn lemma_update_preserves_index_inv(
        pre: Pallet,
        post: Pallet,
        credential_id: Seq<u8>,
        replacement: CredentialV,
    )
        requires
            pre.index_inv(),
            pre.credentials_map().contains_key(credential_id),
            replacement.credential_id == pre.credentials_map()[credential_id].credential_id,
            replacement.credential_hash == pre.credentials_map()[credential_id].credential_hash,
            replacement.holder == pre.credentials_map()[credential_id].holder,
            replacement.issuer == pre.credentials_map()[credential_id].issuer,
            replacement.credential_type == pre.credentials_map()[credential_id].credential_type,
            post.credentials_map() == pre.credentials_map().insert(credential_id, replacement),
            post.by_holder_map() == pre.by_holder_map(),
            post.by_issuer_map() == pre.by_issuer_map(),
            post.by_hash_map() == pre.by_hash_map(),
        ensures
            post.index_inv(),
    {
        assert forall|who: u64, j: int| 0 <= j < post.holder_refs(who).len() implies {
            &&& post.credentials_map().contains_key(
                (#[trigger] post.holder_refs(who)[j]).credential_id,
            )
            &&& post.credentials_map()[post.holder_refs(who)[j].credential_id].holder == who
            &&& post.credentials_map()[post.holder_refs(who)[j].credential_id].credential_type
                == post.holder_refs(who)[j].credential_type
        } by {
            assert(post.holder_refs(who) == pre.holder_refs(who));
            assert(pre.credentials_map().contains_key(
                (#[trigger] pre.holder_refs(who)[j]).credential_id,
            ));
        }
        assert forall|who: u64, j: int| 0 <= j < post.issuer_ids(who).len() implies {
            &&& post.credentials_map().contains_key(#[trigger] post.issuer_ids(who)[j])
            &&& post.credentials_map()[post.issuer_ids(who)[j]].issuer == who
        } by {
            assert(post.issuer_ids(who) == pre.issuer_ids(who));
            assert(pre.credentials_map().contains_key(#[trigger] pre.issuer_ids(who)[j]));
        }
    }

    /// A content hash already bound in the index can never be claimed
    /// again: issuance with it cannot succeed, and when the identity checks
    /// pass it fails precisely with `CredentialAlreadyExists`.
    pub proof fn lemma_duplicate_hash_rejected(
        self,
        identity: crate::did::Pallet,
        issuer: u64,
        holder: u64,
        credential_hash: Seq<u8>,
    )
        requires
            self.by_hash_map().contains_key(credential_hash),
        ensures
            self.issue_outcome(identity, issuer, holder, credential_hash) != Ok::<(), Error>(()),
            Self::issuance_authorized(identity, issuer, holder) ==> self.issue_outcome(
                identity,
                issuer,
                holder,
                credential_hash,
            ) == Err::<(), Error>(Error::CredentialAlreadyExists),
    {
    }

    /// Revocation is one-way: once a credential has left the active
    /// status — by revocation in particular — revoking it cannot succeed,
    /// and for its issuer it fails precisely with
    /// `CredentialAlreadyRevoked`.
    pub proof fn lemma_revocation_is_final(self, revoker: u64, credential_id: Seq<u8>)
        requires
            self.credentials_map().contains_key(credential_id),
            self.credentials_map()[credential_id].status != CredentialStatus::Active,
        ensures
            self.revoke_outcome(revoker, credential_id) != Ok::<(), Error>(()),
            revoker == self.credentials_map()[credential_id].issuer ==> self.revoke_outcome(
                revoker,
                credential_id,
            ) == Err::<(), Error>(Error::CredentialAlreadyRevoked),
    {
    }

    /// A credential that is not active — revoked, in particular — never
    /// passes verification, at any logical time: the outcome is
    /// `CredentialNotActive`.
    pub proof fn lemma_inactive_never_verifies(self, credential_hash: Seq<u8>, now: u64)
        requires
            self.by_hash_map().contains_key(credential_hash),
            self.credentials_map().contains_key(self.by_hash_map()[credential_hash]),
            self.credentials_map()[self.by_hash_map()[credential_hash]].status
                != CredentialStatus::Active,
        ensures
            self.verify_outcome(credential_hash, now) == Err::<(), Error>(
                Error::CredentialNotActive,
            ),
    {
    }

    /// Expiry is evaluated at verification time, not enforced
    /// retroactively: an active credential past its expiry fails
    /// verification with `CredentialExpired` — while, by
    /// `verify_credential`'s contract, its stored status stays untouched —
    /// and within its expiry it verifies successfully.
    pub proof fn lemma_expiry_checked_at_verification(self, credential_hash: Seq<u8>, now: u64)
        requires
            self.by_hash_map().contains_key(credential_hash),
            self.credentials_map().contains_key(self.by_hash_map()[credential_hash]),
            self.credentials_map()[self.by_hash_map()[credential_hash]].status
                == CredentialStatus::Active,
        ensures
            (self.credentials_map()[self.by_hash_map()[credential_hash]].expires_at matches Some(t)
                && now > t) ==> self.verify_outcome(credential_hash, now) == Err::<(), Error>(
                Error::CredentialExpired,
            ),
            (match self.credentials_map()[self.by_hash_map()[credential_hash]].expires_at {
                Some(t) => now <= t,
                None => true,
            }) ==> self.verify_outcome(credential_hash, now) == Ok::<(), Error>(()),
    {
    }

    /// Only a credential's issuer may revoke it or update its metadata:
    /// any other caller gets `NotAuthorized`.
    pub proof fn lemma_only_issuer_may_mutate(self, caller: u64, credential_id: Seq<u8>)
        requires
            self.credentials_map().contains_key(credential_id),
            caller != self.credentials_map()[credential_id].issuer,
        ensures
            self.revoke_outcome(caller, credential_id) == Err::<(), Error>(Error::NotAuthorized),
            self.update_metadata_outcome(caller, credential_id) == Err::<(), Error>(
                Error::NotAuthorized,
            ),
    {
    }

    /// A full index list rejects issuance: when either the holder's or the
    /// issuer's list is at capacity, issuance cannot succeed, and once the
    /// identity checks pass and the hash is fresh it fails precisely with
    /// `TooManyCredentials` — leaving, by `issue_credential`'s contract,
    /// every list unchanged.
    pub proof fn lemma_capacity_enforced(
        self,
        identity: crate::did::Pallet,
        issuer: u64,
        holder: u64,
        credential_hash: Seq<u8>,
    )
        requires
            self.holder_refs(holder).len() >= self.max_credentials_per_holder || self.issuer_ids(
                issuer,
            ).len() >= self.max_credentials_per_holder,
        ensures
            self.issue_outcome(identity, issuer, holder, credential_hash) != Ok::<(), Error>(()),
            (Self::issuance_authorized(identity, issuer, holder) && !self.by_hash_map().contains_key(
                credential_hash,
            )) ==> self.issue_outcome(identity, issuer, holder, credential_hash) == Err::<
                (),
                Error,
            >(Error::TooManyCredentials),
    {
    }
}

} // verus!
