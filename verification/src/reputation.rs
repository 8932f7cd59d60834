//! Reputation engine: directed, weighted endorsements between principals
//! and derived, capped reputation scores.
//!
//! At most one endorsement exists per ordered (endorser, endorsee) pair at a
//! time; removal deletes it entirely, after which the pair may endorse
//! again. Scores are recomputed deterministically from four counters after
//! every mutation that touches them, and capped at 1000.

use crate::store::entries_map;
use crate::store::find_pair;
use crate::store::find_u64;
use crate::store::keys_unique;
use crate::store::lemma_entries_map_contains;
use crate::store::lemma_entries_map_index;
use crate::store::lemma_entries_map_push;
use crate::store::lemma_entries_map_remove;
use crate::store::lemma_entries_map_update;
use crate::Origin;
use vstd::prelude::*;

verus! {

broadcast use crate::store::lemma_pair_deep_view;

/// The kind of an endorsement.
#[derive(Clone, Copy, PartialEq, Eq, Structural, Debug)]
pub enum EndorsementType {
    /// General professional endorsement.
    Professional,
    /// Academic excellence endorsement.
    Academic,
    /// Research contribution endorsement.
    Research,
    /// Teaching quality endorsement.
    Teaching,
    /// Innovation endorsement.
    Innovation,
}

/// A principal's reputation: four counters and the derived, capped total.
#[derive(Clone, Copy, PartialEq, Eq, Structural, Debug)]
pub struct ReputationScore {
    pub credentials_issued: u32,
    pub credentials_verified: u32,
    pub endorsements_received: u32,
    pub endorsements_given: u32,
    pub total_score: u32,
}

impl DeepView for ReputationScore {
    type V = ReputationScore;

    open spec fn deep_view(&self) -> ReputationScore {
        *self
    }
}

impl Default for ReputationScore {
    /// The score a principal holds before any mutation: all zero.
    fn default() -> (r: ReputationScore)
        ensures
            r == zero_score(),
    {
        ReputationScore {
            credentials_issued: 0,
            credentials_verified: 0,
            endorsements_received: 0,
            endorsements_given: 0,
            total_score: 0,
        }
    }
}

/// The all-zero reputation score.
pub open spec fn zero_score() -> ReputationScore {
    ReputationScore {
        credentials_issued: 0,
        credentials_verified: 0,
        endorsements_received: 0,
        endorsements_given: 0,
        total_score: 0,
    }
}

/// One endorsement record.
#[derive(Clone, Debug)]
pub struct Endorsement {
    pub endorser: u64,
    pub endorsee: u64,
    pub endorsement_type: EndorsementType,
    pub comment: Vec<u8>,
    pub created_at: u64,
    pub weight: u8,
}

/// Mathematical image of an [`Endorsement`].
#[verifier::ext_equal]
pub struct EndorsementV {
    pub endorser: u64,
    pub endorsee: u64,
    pub endorsement_type: EndorsementType,
    pub comment: Seq<u8>,
    pub created_at: u64,
    pub weight: u8,
}

impl DeepView for Endorsement {
    type V = EndorsementV;

    open spec fn deep_view(&self) -> EndorsementV {
        EndorsementV {
            endorser: self.endorser,
            endorsee: self.endorsee,
            endorsement_type: self.endorsement_type,
            comment: self.comment@,
            created_at: self.created_at,
            weight: self.weight,
        }
    }
}

/// Everything that can go wrong in the reputation engine.
#[derive(Clone, Copy, PartialEq, Eq, Structural, Debug)]
pub enum Error {
    /// The caller is not the privileged origin a governance operation needs.
    BadOrigin,
    NoDid,
    DidNotActive,
    AlreadyEndorsed,
    CannotEndorseSelf,
    TooManyEndorsements,
    EndorsementNotFound,
    InvalidWeight,
    CommentTooLarge,
    NotVerifiedInstitution,
}

/// Notifications the reputation engine emits. All fields are plain values,
/// so the event is its own mathematical image.
#[derive(Clone, Copy, PartialEq, Eq, Structural, Debug)]
pub enum Event {
    EndorsementCreated {
        endorser: u64,
        endorsee: u64,
        endorsement_type: EndorsementType,
        weight: u8,
    },
    EndorsementRemoved { endorser: u64, endorsee: u64 },
    ReputationUpdated { account: u64, new_score: u32 },
    CredentialIssuanceRecorded { issuer: u64 },
    CredentialVerificationRecorded { verifier: u64 },
}

impl DeepView for Event {
    type V = Event;

    open spec fn deep_view(&self) -> Event {
        *self
    }
}

/// The derived total: `min(1000, issued * 10 + verified * 5 +
/// received * 20)`. Saturation in the executable arithmetic can never be
/// observed below the cap, so the exact sum is the specification.
pub open spec fn score_formula(s: ReputationScore) -> u32 {
    let total = s.credentials_issued as int * 10 + s.credentials_verified as int * 5
        + s.endorsements_received as int * 20;
    if total >= 1000 {
        1000u32
    } else {
        total as u32
    }
}

/// A counter incremented by one, saturating at the type's maximum.
pub open spec fn sat_inc(x: u32) -> u32 {
    if x == u32::MAX {
        x
    } else {
        (x + 1) as u32
    }
}

/// A counter decremented by one, saturating at zero.
pub open spec fn sat_dec(x: u32) -> u32 {
    if x == 0 {
        0u32
    } else {
        (x - 1) as u32
    }
}

/// The score with its total recomputed from its counters.
pub open spec fn rescored(s: ReputationScore) -> ReputationScore {
    ReputationScore { total_score: score_formula(s), ..s }
}

/// The endorser's score after giving an endorsement: only the counter
/// moves; the total is not recomputed for the giver.
pub open spec fn after_giving(s: ReputationScore) -> ReputationScore {
    ReputationScore { endorsements_given: sat_inc(s.endorsements_given), ..s }
}

/// The endorsee's score after receiving an endorsement: counter up and
/// total recomputed.
pub open spec fn after_receiving(s: ReputationScore) -> ReputationScore {
    rescored(ReputationScore { endorsements_received: sat_inc(s.endorsements_received), ..s })
}

/// The endorser's score after withdrawing an endorsement.
pub open spec fn after_ungiving(s: ReputationScore) -> ReputationScore {
    ReputationScore { endorsements_given: sat_dec(s.endorsements_given), ..s }
}

/// The endorsee's score after an endorsement is withdrawn.
pub open spec fn after_unreceiving(s: ReputationScore) -> ReputationScore {
    rescored(ReputationScore { endorsements_received: sat_dec(s.endorsements_received), ..s })
}

/// A score after one credential issuance is recorded.
pub open spec fn after_issuance(s: ReputationScore) -> ReputationScore {
    rescored(ReputationScore { credentials_issued: sat_inc(s.credentials_issued), ..s })
}

/// A score after one credential verification is recorded.
pub open spec fn after_verification(s: ReputationScore) -> ReputationScore {
    rescored(ReputationScore { credentials_verified: sat_inc(s.credentials_verified), ..s })
}

/// The reputation engine: per-principal scores and endorsement lists, the
/// set of live (endorser, endorsee) pairs, the capacity bounds fixed at
/// construction and the ordered notification log.
pub struct Pallet {
    pub scores: Vec<(u64, ReputationScore)>,
    pub given: Vec<(u64, Vec<Endorsement>)>,
    pub received: Vec<(u64, Vec<Endorsement>)>,
    pub endorsed: Vec<((u64, u64), bool)>,
    pub max_endorsements: u32,
    pub max_comment_size: u32,
    pub events: Vec<Event>,
}

impl Pallet {
    /// Scores by principal (only principals some mutation has touched).
    pub open spec fn scores_map(self) -> Map<u64, ReputationScore> {
        entries_map(self.scores@)
    }

    /// Endorsements given, by endorser.
    pub open spec fn given_map(self) -> Map<u64, Seq<EndorsementV>> {
        entries_map(self.given@)
    }

    /// Endorsements received, by endorsee.
    pub open spec fn received_map(self) -> Map<u64, Seq<EndorsementV>> {
        entries_map(self.received@)
    }

    /// The live (endorser, endorsee) pair relation.
    pub open spec fn endorsed_map(self) -> Map<(u64, u64), bool> {
        entries_map(self.endorsed@)
    }

    /// The notifications emitted so far, oldest first.
    pub open spec fn events_seq(self) -> Seq<Event> {
        self.events.deep_view()
    }

    /// A principal's score; zero before any mutation touched it.
    pub open spec fn score_of(self, who: u64) -> ReputationScore {
        if self.scores_map().contains_key(who) {
            self.scores_map()[who]
        } else {
            zero_score()
        }
    }

    /// The endorsements a principal has given; empty if none.
    pub open spec fn given_of(self, who: u64) -> Seq<EndorsementV> {
        if self.given_map().contains_key(who) {
            self.given_map()[who]
        } else {
            Seq::empty()
        }
    }

    /// The endorsements a principal has received; empty if none.
    pub open spec fn received_of(self, who: u64) -> Seq<EndorsementV> {
        if self.received_map().contains_key(who) {
            self.received_map()[who]
        } else {
            Seq::empty()
        }
    }

    /// Whether `endorser` currently endorses `endorsee`.
    pub open spec fn endorsed_rel(self, endorser: u64, endorsee: u64) -> bool {
        self.endorsed_map().contains_key((endorser, endorsee)) && self.endorsed_map()[
            (endorser, endorsee)
        ]
    }

    /// Table keys are pairwise distinct, and the pair table only records
    /// live pairs, none of them a self-endorsement.
    pub open spec fn wf(self) -> bool {
        &&& keys_unique(self.scores@)
        &&& keys_unique(self.given@)
        &&& keys_unique(self.received@)
        &&& keys_unique(self.endorsed@)
        &&& forall|i: int|
            0 <= i < self.endorsed@.len() ==> self.endorsed@[i].1 == true && self.endorsed@[i].0.0
                != self.endorsed@[i].0.1
    }

    /// The capacity bounds never change after construction.
    pub open spec fn same_config(self, other: Pallet) -> bool {
        self.max_endorsements == other.max_endorsements && self.max_comment_size
            == other.max_comment_size
    }

    /// An empty engine with the given bounds: at most `max_endorsements`
    /// entries per endorsement list and comments of at most
    /// `max_comment_size` bytes.
    pub fn new(max_endorsements: u32, max_comment_size: u32) -> (r: Pallet)
        ensures
            r.wf(),
            r.scores_map() == Map::<u64, ReputationScore>::empty(),
            r.given_map() == Map::<u64, Seq<EndorsementV>>::empty(),
            r.received_map() == Map::<u64, Seq<EndorsementV>>::empty(),
            r.endorsed_map() == Map::<(u64, u64), bool>::empty(),
            r.events_seq() == Seq::<Event>::empty(),
            r.max_endorsements == max_endorsements,
            r.max_comment_size == max_comment_size,
            r.endorsement_inv(),
    {
        let r = Pallet {
            scores: Vec::new(),
            given: Vec::new(),
            received: Vec::new(),
            endorsed: Vec::new(),
            max_endorsements,
            max_comment_size,
            events: Vec::new(),
        };
        proof {
            assert(r.events_seq() =~= Seq::<Event>::empty());
            r.lemma_empty_endorsement_inv();
        }
        r
    }

    /// What `endorse` returns: no self-endorsement, weight within one to
    /// ten, both principals hold active documents, the pair is not already
    /// endorsed, and both lists are below capacity.
    pub open spec fn endorse_outcome(
        self,
        identity: crate::did::Pallet,
        endorser: u64,
        endorsee: u64,
        weight: u8,
    ) -> Result<(), Error> {
        let docs = identity.documents_map();
        if endorser == endorsee {
            Err(Error::CannotEndorseSelf)
        } else if weight < 1 || weight > 10 {
            Err(Error::InvalidWeight)
        } else if !docs.contains_key(endorser) {
            Err(Error::NoDid)
        } else if !docs[endorser].active {
            Err(Error::DidNotActive)
        } else if !docs.contains_key(endorsee) {
            Err(Error::NoDid)
        } else if !docs[endorsee].active {
            Err(Error::DidNotActive)
        } else if self.endorsed_rel(endorser, endorsee) {
            Err(Error::AlreadyEndorsed)
        } else if self.given_of(endorser).len() >= self.max_endorsements {
            Err(Error::TooManyEndorsements)
        } else if self.received_of(endorsee).len() >= self.max_endorsements {
            Err(Error::TooManyEndorsements)
        } else {
            Ok(())
        }
    }

    /// Endorse another principal. All validation precedes every write: a
    /// failed call leaves both lists and all scores unchanged.
    pub fn endorse(
        &mut self,
        identity: &crate::did::Pallet,
        endorser: u64,
        endorsee: u64,
        endorsement_type: EndorsementType,
        comment: Vec<u8>,
        weight: u8,
        now: u64,
    ) -> (r: Result<(), Error>)
        requires
            old(self).wf(),
            identity.wf(),
            comment@.len() <= old(self).max_comment_size,
        ensures
            final(self).wf(),
            old(self).same_config(*final(self)),
            r == old(self).endorse_outcome(*identity, endorser, endorsee, weight),
            r is Err ==> *final(self) == *old(self),
            r is Ok ==> final(self).given_map() == old(self).given_map().insert(
                endorser,
                old(self).given_of(endorser).push(
                    (EndorsementV {
                        endorser: endorser,
                        endorsee: endorsee,
                        endorsement_type: endorsement_type,
                        comment: comment@,
                        created_at: now,
                        weight: weight,
                    }),
                ),
            ),
            r is Ok ==> final(self).received_map() == old(self).received_map().insert(
                endorsee,
                old(self).received_of(endorsee).push(
                    (EndorsementV {
                        endorser: endorser,
                        endorsee: endorsee,
                        endorsement_type: endorsement_type,
                        comment: comment@,
                        created_at: now,
                        weight: weight,
                    }),
                ),
            ),
            r is Ok ==> final(self).endorsed_map() == old(self).endorsed_map().insert(
                (endorser, endorsee),
                true,
            ),
            r is Ok ==> final(self).scores_map() == old(self).scores_map().insert(
                endorser,
                after_giving(old(self).score_of(endorser)),
            ).insert(endorsee, after_receiving(old(self).score_of(endorsee))),
            r is Ok ==> final(self).events_seq() == old(self).events_seq().push(
                (Event::EndorsementCreated {
                    endorser: endorser,
                    endorsee: endorsee,
                    endorsement_type: endorsement_type,
                    weight: weight,
                }),
            ),
            (r is Ok && old(self).endorsement_inv()) ==> final(self).endorsement_inv(),
    {
        if endorser == endorsee {
            return Err(Error::CannotEndorseSelf);
        }
        if weight < 1 || weight > 10 {
            return Err(Error::InvalidWeight);
        }
        match identity.did_documents(endorser) {
            None => {
                return Err(Error::NoDid);
            },
            Some(doc) => {
                if !doc.active {
                    return Err(Error::DidNotActive);
                }
            },
        }
        match identity.did_documents(endorsee) {
            None => {
                return Err(Error::NoDid);
            },
            Some(doc) => {
                if !doc.active {
                    return Err(Error::DidNotActive);
                }
            },
        }
        let pair_found = find_pair(&self.endorsed, endorser, endorsee);
        proof {
            lemma_entries_map_contains::<(u64, u64), bool>(self.endorsed@, (endorser, endorsee));
        }
        match pair_found {
            Some(i) => {
                proof {
                    lemma_entries_map_index::<(u64, u64), bool>(self.endorsed@, i as int);
                }
                return Err(Error::AlreadyEndorsed);
            },
            None => {},
        }
        let giver_idx = find_u64(&self.given, endorser);
        proof {
            lemma_entries_map_contains::<u64, Vec<Endorsement>>(self.given@, endorser);
        }
        let giver_len: usize = match giver_idx {
            Some(i) => {
                proof {
                    lemma_entries_map_index::<u64, Vec<Endorsement>>(self.given@, i as int);
                }
                self.given[i].1.len()
            },
            None => 0,
        };
        if giver_len >= self.max_endorsements as usize {
            return Err(Error::TooManyEndorsements);
        }
        let taker_idx = find_u64(&self.received, endorsee);
        proof {
            lemma_entries_map_contains::<u64, Vec<Endorsement>>(self.received@, endorsee);
        }
        let taker_len: usize = match taker_idx {
            Some(i) => {
                proof {
                    lemma_entries_map_index::<u64, Vec<Endorsement>>(self.received@, i as int);
                }
                self.received[i].1.len()
            },
            None => 0,
        };
        if taker_len >= self.max_endorsements as usize {
            return Err(Error::TooManyEndorsements);
        }
        // All checks passed: commit every write.
        let ghost comment_view = comment@;
        let comment_copy = crate::store::clone_bytes(&comment);
        let entry_given = Endorsement {
            endorser,
            endorsee,
            endorsement_type,
            comment,
            created_at: now,
            weight,
        };
        let entry_received = Endorsement {
            endorser,
            endorsee,
            endorsement_type,
            comment: comment_copy,
            created_at: now,
            weight,
        };
        match giver_idx {
            Some(i) => {
                let (k, mut list) = self.given.remove(i);
                let ghost old_list = list.deep_view();
                list.push(entry_given);
                proof {
                    assert(list.deep_view() =~= old_list.push(
                        (EndorsementV {
                            endorser: endorser,
                            endorsee: endorsee,
                            endorsement_type: endorsement_type,
                            comment: entry_given.comment@,
                            created_at: now,
                            weight: weight,
                        }),
                    ));
                }
                self.given.insert(i, (k, list));
                proof {
                    assert(self.given@ =~= old(self).given@.update(i as int, (k, list)));
                    lemma_entries_map_update(old(self).given@, i as int, k, list);
                    assert(keys_unique(self.given@));
                }
            },
            None => {
                let mut list: Vec<Endorsement> = Vec::new();
                list.push(entry_given);
                proof {
                    lemma_entries_map_push(self.given@, endorser, list);
                    assert(list.deep_view() =~= old(self).given_of(endorser).push(
                        (EndorsementV {
                            endorser: endorser,
                            endorsee: endorsee,
                            endorsement_type: endorsement_type,
                            comment: entry_given.comment@,
                            created_at: now,
                            weight: weight,
                        }),
                    ));
                }
                self.given.push((endorser, list));
                proof {
                    assert(keys_unique(self.given@));
                }
            },
        }
        match taker_idx {
            Some(i) => {
                let (k, mut list) = self.received.remove(i);
                let ghost old_list = list.deep_view();
                list.push(entry_received);
                proof {
                    assert(list.deep_view() =~= old_list.push(
                        (EndorsementV {
                            endorser: endorser,
                            endorsee: endorsee,
                            endorsement_type: endorsement_type,
                            comment: entry_received.comment@,
                            created_at: now,
                            weight: weight,
                        }),
                    ));
                }
                self.received.insert(i, (k, list));
                proof {
                    assert(self.received@ =~= old(self).received@.update(i as int, (k, list)));
                    lemma_entries_map_update(old(self).received@, i as int, k, list);
                    assert(keys_unique(self.received@));
                }
            },
            None => {
                let mut list: Vec<Endorsement> = Vec::new();
                list.push(entry_received);
                proof {
                    lemma_entries_map_push(self.received@, endorsee, list);
                    assert(list.deep_view() =~= old(self).received_of(endorsee).push(
                        (EndorsementV {
                            endorser: endorser,
                            endorsee: endorsee,
                            endorsement_type: endorsement_type,
                            comment: entry_received.comment@,
                            created_at: now,
                            weight: weight,
                        }),
                    ));
                }
                self.received.push((endorsee, list));
                proof {
                    assert(keys_unique(self.received@));
                }
            },
        }
        proof {
            lemma_entries_map_push(self.endorsed@, (endorser, endorsee), true);
        }
        self.endorsed.push(((endorser, endorsee), true));
        proof {
            assert(keys_unique(self.endorsed@));
        }
        let giver_score = Self::read_score(&self.scores, endorser);
        let new_giver_score = ReputationScore {
            endorsements_given: if giver_score.endorsements_given == u32::MAX {
                u32::MAX
            } else {
                giver_score.endorsements_given + 1
            },
            ..giver_score
        };
        Self::write_score(&mut self.scores, endorser, new_giver_score);
        let taker_score = Self::read_score(&self.scores, endorsee);
        let mut new_taker_score = ReputationScore {
            endorsements_received: if taker_score.endorsements_received == u32::MAX {
                u32::MAX
            } else {
                taker_score.endorsements_received + 1
            },
            ..taker_score
        };
        new_taker_score.total_score = calculate_reputation_score(&new_taker_score);
        Self::write_score(&mut self.scores, endorsee, new_taker_score);
        self.events.push(
            Event::EndorsementCreated { endorser, endorsee, endorsement_type, weight },
        );
        proof {
            assert(self.events_seq() =~= old(self).events_seq().push(
                (Event::EndorsementCreated {
                    endorser: endorser,
                    endorsee: endorsee,
                    endorsement_type: endorsement_type,
                    weight: weight,
                }),
            ));
            if old(self).endorsement_inv() {
                Self::lemma_endorse_preserves_endorsement_inv(
                    *old(self),
                    *self,
                    endorser,
                    endorsee,
                    (EndorsementV {
                        endorser: endorser,
                        endorsee: endorsee,
                        endorsement_type: endorsement_type,
                        comment: comment_view,
                        created_at: now,
                        weight: weight,
                    }),
                );
            }
        }
        Ok(())
    }

    /// A principal's stored score, or the zero default.
    fn read_score(scores: &Vec<(u64, ReputationScore)>, who: u64) -> (r: ReputationScore)
        requires
            keys_unique(scores@),
        ensures
            r == (if entries_map(scores@).contains_key(who) {
                entries_map(scores@)[who]
            } else {
                zero_score()
            }),
    {
        let found = find_u64(scores, who);
        proof {
            lemma_entries_map_contains::<u64, ReputationScore>(scores@, who);
        }
        match found {
            None => ReputationScore {
                credentials_issued: 0,
                credentials_verified: 0,
                endorsements_received: 0,
                endorsements_given: 0,
                total_score: 0,
            },
            Some(i) => {
                proof {
                    lemma_entries_map_index::<u64, ReputationScore>(scores@, i as int);
                }
                scores[i].1
            },
        }
    }

    /// Store a principal's score, creating its entry if need be.
    fn write_score(scores: &mut Vec<(u64, ReputationScore)>, who: u64, value: ReputationScore)
        requires
            keys_unique(old(scores)@),
        ensures
            keys_unique(final(scores)@),
            entries_map(final(scores)@) == entries_map(old(scores)@).insert(who, value),
    {
        let found = find_u64(scores, who);
        match found {
            None => {
                proof {
                    lemma_entries_map_push(scores@, who, value);
                }
                scores.push((who, value));
                proof {
                    assert(keys_unique(scores@));
                }
            },
            Some(i) => {
                let (k, _old_value) = scores.remove(i);
                scores.insert(i, (k, value));
                proof {
                    assert(scores@ =~= old(scores)@.update(i as int, (k, value)));
                    lemma_entries_map_update(old(scores)@, i as int, k, value);
                    assert(keys_unique(scores@));
                }
            },
        }
    }

    /// What `remove_endorsement` returns: the pair must currently be
    /// endorsed.
    pub open spec fn remove_endorsement_outcome(self, endorser: u64, endorsee: u64) -> Result<
        (),
        Error,
    > {
        if !self.endorsed_rel(endorser, endorsee) {
            Err(Error::EndorsementNotFound)
        } else {
            Ok(())
        }
    }

    /// Withdraw an endorsement previously given: the record disappears from
    /// both lists, the pair relation is cleared, and both counters move
    /// back down (saturating at zero).
    pub fn remove_endorsement(&mut self, endorser: u64, endorsee: u64) -> (r: Result<(), Error>)
        requires
            old(self).wf(),
        ensures
            final(self).wf(),
            old(self).same_config(*final(self)),
            r == old(self).remove_endorsement_outcome(endorser, endorsee),
            r is Err ==> *final(self) == *old(self),
            r is Ok ==> final(self).given_map() == old(self).given_map().insert(
                endorser,
                old(self).given_of(endorser).filter(|e: EndorsementV| e.endorsee != endorsee),
            ),
            r is Ok ==> final(self).received_map() == old(self).received_map().insert(
                endorsee,
                old(self).received_of(endorsee).filter(|e: EndorsementV| e.endorser != endorser),
            ),
            r is Ok ==> final(self).endorsed_map() == old(self).endorsed_map().remove(
                (endorser, endorsee),
            ),
            r is Ok ==> final(self).scores_map() == old(self).scores_map().insert(
                endorser,
                after_ungiving(old(self).score_of(endorser)),
            ).insert(endorsee, after_unreceiving(old(self).score_of(endorsee))),
            r is Ok ==> final(self).events_seq() == old(self).events_seq().push(
                (Event::EndorsementRemoved { endorser: endorser, endorsee: endorsee }),
            ),
            (r is Ok && old(self).endorsement_inv()) ==> final(self).endorsement_inv(),
    {
        let pair_found = find_pair(&self.endorsed, endorser, endorsee);
        proof {
            lemma_entries_map_contains::<(u64, u64), bool>(self.endorsed@, (endorser, endorsee));
        }
        let pi = match pair_found {
            None => {
                return Err(Error::EndorsementNotFound);
            },
            Some(i) => i,
        };
        proof {
            lemma_entries_map_index::<(u64, u64), bool>(self.endorsed@, pi as int);
            lemma_entries_map_remove::<(u64, u64), bool>(self.endorsed@, pi as int);
        }
        let _ = self.endorsed.remove(pi);
        proof {
            assert(keys_unique(self.endorsed@)) by {
                assert(forall|a: int, b: int|
                    0 <= a < b < self.endorsed@.len() ==> self.endorsed@[a].0.deep_view()
                        != self.endorsed@[b].0.deep_view()) by {
                    assert(forall|a: int|
                        0 <= a < self.endorsed@.len() ==> self.endorsed@[a] == (if a < pi {
                            old(self).endorsed@[a]
                        } else {
                            old(self).endorsed@[a + 1]
                        }));
                }
            }
            assert(forall|i: int|
                0 <= i < self.endorsed@.len() ==> self.endorsed@[i].1 == true && self.endorsed@[
                    i
                ].0.0 != self.endorsed@[i].0.1) by {
                assert(forall|a: int|
                    0 <= a < self.endorsed@.len() ==> self.endorsed@[a] == (if a < pi {
                        old(self).endorsed@[a]
                    } else {
                        old(self).endorsed@[a + 1]
                    }));
            }
        }
        self.drop_given(endorser, endorsee);
        self.drop_received(endorser, endorsee);
        let giver_score = Self::read_score(&self.scores, endorser);
        let new_giver_score = ReputationScore {
            endorsements_given: if giver_score.endorsements_given == 0 {
                0
            } else {
                giver_score.endorsements_given - 1
            },
            ..giver_score
        };
        Self::write_score(&mut self.scores, endorser, new_giver_score);
        let taker_score = Self::read_score(&self.scores, endorsee);
        let mut new_taker_score = ReputationScore {
            endorsements_received: if taker_score.endorsements_received == 0 {
                0
            } else {
                taker_score.endorsements_received - 1
            },
            ..taker_score
        };
        new_taker_score.total_score = calculate_reputation_score(&new_taker_score);
        Self::write_score(&mut self.scores, endorsee, new_taker_score);
        self.events.push(Event::EndorsementRemoved { endorser, endorsee });
        proof {
            assert(self.events_seq() =~= old(self).events_seq().push(
                (Event::EndorsementRemoved { endorser: endorser, endorsee: endorsee }),
            ));
            if old(self).endorsement_inv() {
                Self::lemma_remove_preserves_endorsement_inv(
                    *old(self),
                    *self,
                    endorser,
                    endorsee,
                );
            }
        }
        Ok(())
    }

    /// Drop every endorsement of `endorsee` from `endorser`'s given list,
    /// creating the (then filtered, possibly empty) entry if absent.
    fn drop_given(&mut self, endorser: u64, endorsee: u64)
        requires
            old(self).wf(),
        ensures
            final(self).wf(),
            old(self).same_config(*final(self)),
            final(self).given_map() == old(self).given_map().insert(
                endorser,
                old(self).given_of(endorser).filter(|e: EndorsementV| e.endorsee != endorsee),
            ),
            final(self).received_map() == old(self).received_map(),
            final(self).scores_map() == old(self).scores_map(),
            final(self).endorsed_map() == old(self).endorsed_map(),
            final(self).events_seq() == old(self).events_seq(),
            final(self).endorsed@ == old(self).endorsed@,
    {
        let found = find_u64(&self.given, endorser);
        proof {
            lemma_entries_map_contains::<u64, Vec<Endorsement>>(self.given@, endorser);
        }
        let ghost pred = |e: EndorsementV| e.endorsee != endorsee;
        match found {
            None => {
                let list: Vec<Endorsement> = Vec::new();
                proof {
                    lemma_entries_map_push(self.given@, endorser, list);
                    reveal(Seq::filter);
                    assert(list.deep_view() =~= old(self).given_of(endorser).filter(pred));
                }
                self.given.push((endorser, list));
                proof {
                    assert(keys_unique(self.given@));
                }
            },
            Some(i) => {
                proof {
                    lemma_entries_map_index::<u64, Vec<Endorsement>>(self.given@, i as int);
                }
                let (k, list) = self.given.remove(i);
                let kept = Self::filter_by_endorsee(&list, endorsee);
                self.given.insert(i, (k, kept));
                proof {
                    assert(self.given@ =~= old(self).given@.update(i as int, (k, kept)));
                    lemma_entries_map_update(old(self).given@, i as int, k, kept);
                    assert(keys_unique(self.given@));
                }
            },
        }
    }

    /// Drop every endorsement by `endorser` from `endorsee`'s received
    /// list, creating the (then filtered, possibly empty) entry if absent.
    fn drop_received(&mut self, endorser: u64, endorsee: u64)
        requires
            old(self).wf(),
        ensures
            final(self).wf(),
            old(self).same_config(*final(self)),
            final(self).received_map() == old(self).received_map().insert(
                endorsee,
                old(self).received_of(endorsee).filter(|e: EndorsementV| e.endorser != endorser),
            ),
            final(self).given_map() == old(self).given_map(),
            final(self).scores_map() == old(self).scores_map(),
            final(self).endorsed_map() == old(self).endorsed_map(),
            final(self).events_seq() == old(self).events_seq(),
            final(self).endorsed@ == old(self).endorsed@,
    {
        let found = find_u64(&self.received, endorsee);
        proof {
            lemma_entries_map_contains::<u64, Vec<Endorsement>>(self.received@, endorsee);
        }
        let ghost pred = |e: EndorsementV| e.endorser != endorser;
        match found {
            None => {
                let list: Vec<Endorsement> = Vec::new();
                proof {
                    lemma_entries_map_push(self.received@, endorsee, list);
                    reveal(Seq::filter);
                    assert(list.deep_view() =~= old(self).received_of(endorsee).filter(pred));
                }
                self.received.push((endorsee, list));
                proof {
                    assert(keys_unique(self.received@));
                }
            },
            Some(i) => {
                proof {
                    lemma_entries_map_index::<u64, Vec<Endorsement>>(self.received@, i as int);
                }
                let (k, list) = self.received.remove(i);
                let kept = Self::filter_by_endorser(&list, endorser);
                self.received.insert(i, (k, kept));
                proof {
                    assert(self.received@ =~= old(self).received@.update(i as int, (k, kept)));
                    lemma_entries_map_update(old(self).received@, i as int, k, kept);
                    assert(keys_unique(self.received@));
                }
            },
        }
    }

    /// The entries of the list whose endorsee is not the given one.
    fn filter_by_endorsee(list: &Vec<Endorsement>, endorsee: u64) -> (r: Vec<Endorsement>)
        ensures
            r.deep_view() == list.deep_view().filter(|e: EndorsementV| e.endorsee != endorsee),
    {
        let ghost pred = |e: EndorsementV| e.endorsee != endorsee;
        let ghost all = list.deep_view();
        let mut r: Vec<Endorsement> = Vec::new();
        proof {
            reveal(Seq::filter);
            assert(r.deep_view() =~= all.subrange(0, 0).filter(pred));
        }
        let mut j: usize = 0;
        while j < list.len()
            invariant
                j <= list.len(),
                all == list.deep_view(),
                all.len() == list.len(),
                r.deep_view() == all.subrange(0, j as int).filter(pred),
                pred == (|e: EndorsementV| e.endorsee != endorsee),
            decreases list.len() - j,
        {
            let ghost prefix = all.subrange(0, j as int);
            proof {
                reveal(Seq::filter);
                assert(all.subrange(0, j + 1).drop_last() =~= prefix);
                assert(all.subrange(0, j + 1).last() == all[j as int]);
            }
            if list[j].endorsee != endorsee {
                let e = &list[j];
                let copied = Endorsement {
                    endorser: e.endorser,
                    endorsee: e.endorsee,
                    endorsement_type: e.endorsement_type,
                    comment: crate::store::clone_bytes(&e.comment),
                    created_at: e.created_at,
                    weight: e.weight,
                };
                proof {
                    assert(copied.deep_view() =~= all[j as int]);
                }
                r.push(copied);
                proof {
                    assert(r.deep_view() =~= prefix.filter(pred).push(all[j as int]));
                }
            }
            j = j + 1;
        }
        proof {
            assert(all.subrange(0, all.len() as int) =~= all);
        }
        r
    }

    /// The entries of the list whose endorser is not the given one.
    fn filter_by_endorser(list: &Vec<Endorsement>, endorser: u64) -> (r: Vec<Endorsement>)
        ensures
            r.deep_view() == list.deep_view().filter(|e: EndorsementV| e.endorser != endorser),
    {
        let ghost pred = |e: EndorsementV| e.endorser != endorser;
        let ghost all = list.deep_view();
        let mut r: Vec<Endorsement> = Vec::new();
        proof {
            reveal(Seq::filter);
            assert(r.deep_view() =~= all.subrange(0, 0).filter(pred));
        }
        let mut j: usize = 0;
        while j < list.len()
            invariant
                j <= list.len(),
                all == list.deep_view(),
                all.len() == list.len(),
                r.deep_view() == all.subrange(0, j as int).filter(pred),
                pred == (|e: EndorsementV| e.endorser != endorser),
            decreases list.len() - j,
        {
            let ghost prefix = all.subrange(0, j as int);
            proof {
                reveal(Seq::filter);
                assert(all.subrange(0, j + 1).drop_last() =~= prefix);
                assert(all.subrange(0, j + 1).last() == all[j as int]);
            }
            if list[j].endorser != endorser {
                let e = &list[j];
                let copied = Endorsement {
                    endorser: e.endorser,
                    endorsee: e.endorsee,
                    endorsement_type: e.endorsement_type,
                    comment: crate::store::clone_bytes(&e.comment),
                    created_at: e.created_at,
                    weight: e.weight,
                };
                proof {
                    assert(copied.deep_view() =~= all[j as int]);
                }
                r.push(copied);
                proof {
                    assert(r.deep_view() =~= prefix.filter(pred).push(all[j as int]));
                }
            }
            j = j + 1;
        }
        proof {
            assert(all.subrange(0, all.len() as int) =~= all);
        }
        r
    }

    /// What the two privileged recording operations return: only the
    /// privileged origin may call them.
    pub open spec fn governance_outcome(self, origin: Origin) -> Result<(), Error> {
        if origin != Origin::Root {
            Err(Error::BadOrigin)
        } else {
            Ok(())
        }
    }

    /// Record that an institution issued a credential (privileged callers
    /// only, forwarded by the host): its issuance counter moves up and its
    /// total is recomputed.
    pub fn record_credential_issuance(&mut self, origin: Origin, issuer: u64) -> (r: Result<
        (),
        Error,
    >)
        requires
            old(self).wf(),
        ensures
            final(self).wf(),
            old(self).same_config(*final(self)),
            r == old(self).governance_outcome(origin),
            r is Err ==> *final(self) == *old(self),
            r is Ok ==> final(self).scores_map() == old(self).scores_map().insert(
                issuer,
                after_issuance(old(self).score_of(issuer)),
            ),
            r is Ok ==> final(self).given_map() == old(self).given_map(),
            r is Ok ==> final(self).received_map() == old(self).received_map(),
            r is Ok ==> final(self).endorsed_map() == old(self).endorsed_map(),
            r is Ok ==> final(self).events_seq() == old(self).events_seq().push(
                (Event::CredentialIssuanceRecorded { issuer: issuer }),
            ).push(
                (Event::ReputationUpdated {
                    account: issuer,
                    new_score: after_issuance(old(self).score_of(issuer)).total_score,
                }),
            ),
    {
        if !matches!(origin, Origin::Root) {
            return Err(Error::BadOrigin);
        }
        let score = Self::read_score(&self.scores, issuer);
        let mut new_score = ReputationScore {
            credentials_issued: if score.credentials_issued == u32::MAX {
                u32::MAX
            } else {
                score.credentials_issued + 1
            },
            ..score
        };
        new_score.total_score = calculate_reputation_score(&new_score);
        Self::write_score(&mut self.scores, issuer, new_score);
        self.events.push(Event::CredentialIssuanceRecorded { issuer });
        self.events.push(
            Event::ReputationUpdated { account: issuer, new_score: new_score.total_score },
        );
        proof {
            assert(self.events_seq() =~= old(self).events_seq().push(
                (Event::CredentialIssuanceRecorded { issuer: issuer }),
            ).push(
                (Event::ReputationUpdated {
                    account: issuer,
                    new_score: after_issuance(old(self).score_of(issuer)).total_score,
                }),
            ));
        }
        Ok(())
    }

    /// Record that the caller verified a credential: its verification
    /// counter moves up and its total is recomputed. Never fails.
    pub fn record_credential_verification(&mut self, verifier: u64) -> (r: Result<(), Error>)
        requires
            old(self).wf(),
        ensures
            final(self).wf(),
            old(self).same_config(*final(self)),
            r == Ok::<(), Error>(()),
            final(self).scores_map() == old(self).scores_map().insert(
                verifier,
                after_verification(old(self).score_of(verifier)),
            ),
            final(self).given_map() == old(self).given_map(),
            final(self).received_map() == old(self).received_map(),
            final(self).endorsed_map() == old(self).endorsed_map(),
            final(self).events_seq() == old(self).events_seq().push(
                (Event::CredentialVerificationRecorded { verifier: verifier }),
            ).push(
                (Event::ReputationUpdated {
                    account: verifier,
                    new_score: after_verification(old(self).score_of(verifier)).total_score,
                }),
            ),
    {
        let score = Self::read_score(&self.scores, verifier);
        let mut new_score = ReputationScore {
            credentials_verified: if score.credentials_verified == u32::MAX {
                u32::MAX
            } else {
                score.credentials_verified + 1
            },
            ..score
        };
        new_score.total_score = calculate_reputation_score(&new_score);
        Self::write_score(&mut self.scores, verifier, new_score);
        self.events.push(Event::CredentialVerificationRecorded { verifier });
        self.events.push(
            Event::ReputationUpdated { account: verifier, new_score: new_score.total_score },
        );
        proof {
            assert(self.events_seq() =~= old(self).events_seq().push(
                (Event::CredentialVerificationRecorded { verifier: verifier }),
            ).push(
                (Event::ReputationUpdated {
                    account: verifier,
                    new_score: after_verification(old(self).score_of(verifier)).total_score,
                }),
            ));
        }
        Ok(())
    }

    /// Recompute a principal's total from its counters, changing no
    /// counter: the idempotent repair operation (privileged callers only).
    pub fn update_reputation_score(&mut self, origin: Origin, account: u64) -> (r: Result<
        (),
        Error,
    >)
        requires
            old(self).wf(),
        ensures
            final(self).wf(),
            old(self).same_config(*final(self)),
            r == old(self).governance_outcome(origin),
            r is Err ==> *final(self) == *old(self),
            r is Ok ==> final(self).scores_map() == old(self).scores_map().insert(
                account,
                rescored(old(self).score_of(account)),
            ),
            r is Ok ==> final(self).given_map() == old(self).given_map(),
            r is Ok ==> final(self).received_map() == old(self).received_map(),
            r is Ok ==> final(self).endorsed_map() == old(self).endorsed_map(),
            r is Ok ==> final(self).events_seq() == old(self).events_seq().push(
                (Event::ReputationUpdated {
                    account: account,
                    new_score: rescored(old(self).score_of(account)).total_score,
                }),
            ),
    {
        if !matches!(origin, Origin::Root) {
            return Err(Error::BadOrigin);
        }
        let score = Self::read_score(&self.scores, account);
        let mut new_score = score;
        new_score.total_score = calculate_reputation_score(&new_score);
        Self::write_score(&mut self.scores, account, new_score);
        self.events.push(
            Event::ReputationUpdated { account, new_score: new_score.total_score },
        );
        proof {
            assert(self.events_seq() =~= old(self).events_seq().push(
                (Event::ReputationUpdated {
                    account: account,
                    new_score: rescored(old(self).score_of(account)).total_score,
                }),
            ));
        }
        Ok(())
    }

    /// A principal's score; the zero default if never touched.
    pub fn reputation_scores(&self, who: u64) -> (r: ReputationScore)
        requires
            self.wf(),
        ensures
            r == self.score_of(who),
    {
        Self::read_score(&self.scores, who)
    }

    /// The endorsements a principal has given; empty if none.
    pub fn endorsements_given(&self, who: u64) -> (r: Vec<Endorsement>)
        requires
            self.wf(),
        ensures
            r.deep_view() == self.given_of(who),
    {
        let found = find_u64(&self.given, who);
        proof {
            lemma_entries_map_contains::<u64, Vec<Endorsement>>(self.given@, who);
        }
        match found {
            None => {
                let r: Vec<Endorsement> = Vec::new();
                proof {
                    assert(r.deep_view() =~= self.given_of(who));
                }
                r
            },
            Some(i) => {
                proof {
                    lemma_entries_map_index::<u64, Vec<Endorsement>>(self.given@, i as int);
                }
                Self::copy_endorsements(&self.given[i].1)
            },
        }
    }

    /// The endorsements a principal has received; empty if none.
    pub fn endorsements_received(&self, who: u64) -> (r: Vec<Endorsement>)
        requires
            self.wf(),
        ensures
            r.deep_view() == self.received_of(who),
    {
        let found = find_u64(&self.received, who);
        proof {
            lemma_entries_map_contains::<u64, Vec<Endorsement>>(self.received@, who);
        }
        match found {
            None => {
                let r: Vec<Endorsement> = Vec::new();
                proof {
                    assert(r.deep_view() =~= self.received_of(who));
                }
                r
            },
            Some(i) => {
                proof {
                    lemma_entries_map_index::<u64, Vec<Endorsement>>(self.received@, i as int);
                }
                Self::copy_endorsements(&self.received[i].1)
            },
        }
    }

    /// A field-for-field copy of an endorsement list.
    fn copy_endorsements(list: &Vec<Endorsement>) -> (r: Vec<Endorsement>)
        ensures
            r.deep_view() == list.deep_view(),
    {
        let ghost all = list.deep_view();
        let mut r: Vec<Endorsement> = Vec::new();
        proof {
            assert(r.deep_view() =~= all.subrange(0, 0));
        }
        let mut j: usize = 0;
        while j < list.len()
            invariant
                j <= list.len(),
                all == list.deep_view(),
                all.len() == list.len(),
                r.deep_view() == all.subrange(0, j as int),
            decreases list.len() - j,
        {
            let e = &list[j];
            let copied = Endorsement {
                endorser: e.endorser,
                endorsee: e.endorsee,
                endorsement_type: e.endorsement_type,
                comment: crate::store::clone_bytes(&e.comment),
                created_at: e.created_at,
                weight: e.weight,
            };
            proof {
                assert(*e == list@[j as int]);
                assert(copied.deep_view() =~= all[j as int]);
            }
            r.push(copied);
            proof {
                assert(r.deep_view() =~= all.subrange(0, j as int).push(all[j as int]));
                assert(all.subrange(0, j as int).push(all[j as int]) =~= all.subrange(0, j + 1));
            }
            j = j + 1;
        }
        proof {
            assert(all.subrange(0, all.len() as int) =~= all);
        }
        r
    }

    /// Whether `endorser` currently endorses `endorsee`.
    pub fn has_endorsed(&self, endorser: u64, endorsee: u64) -> (r: bool)
        requires
            self.wf(),
        ensures
            r == self.endorsed_rel(endorser, endorsee),
    {
        let found = find_pair(&self.endorsed, endorser, endorsee);
        proof {
            lemma_entries_map_contains::<(u64, u64), bool>(self.endorsed@, (endorser, endorsee));
        }
        match found {
            None => false,
            Some(i) => {
                proof {
                    lemma_entries_map_index::<(u64, u64), bool>(self.endorsed@, i as int);
                }
                true
            },
        }
    }

    /// Every notification emitted so far, oldest first.
    pub fn events(&self) -> (r: &Vec<Event>)
        ensures
            r.deep_view() == self.events_seq(),
    {
        &self.events
    }

    /// The most recent notification, if any was emitted.
    pub fn last_event(&self) -> (r: Option<&Event>)
        ensures
            match r {
                Some(e) => self.events_seq().len() > 0 && e.deep_view()
                    == self.events_seq().last(),
                None => self.events_seq().len() == 0,
            },
    {
        if self.events.len() == 0 {
            None
        } else {
            Some(&self.events[self.events.len() - 1])
        }
    }

    /// The identity-registry checks endorsement makes: both principals
    /// hold active documents.
    pub open spec fn endorsement_authorized(
        identity: crate::did::Pallet,
        endorser: u64,
        endorsee: u64,
    ) -> bool {
        let docs = identity.documents_map();
        &&& docs.contains_key(endorser)
        &&& docs[endorser].active
        &&& docs.contains_key(endorsee)
        &&& docs[endorsee].active
    }

    /// At most one endorsement per ordered pair: while the pair is live,
    /// endorsing again cannot succeed, and once the input and identity
    /// checks pass it fails precisely with `AlreadyEndorsed`.
    pub proof fn lemma_duplicate_endorsement_rejected(
        self,
        identity: crate::did::Pallet,
        endorser: u64,
        endorsee: u64,
        weight: u8,
    )
        requires
            self.endorsed_rel(endorser, endorsee),
        ensures
            self.endorse_outcome(identity, endorser, endorsee, weight) != Ok::<(), Error>(()),
            (endorser != endorsee && 1 <= weight <= 10 && Self::endorsement_authorized(
                identity,
                endorser,
                endorsee,
            )) ==> self.endorse_outcome(identity, endorser, endorsee, weight) == Err::<(), Error>(
                Error::AlreadyEndorsed,
            ),
    {
    }

    /// After an endorsement is removed the pair is free again: with the
    /// pair relation clear, valid inputs, both documents active and both
    /// lists below capacity, endorsing succeeds.
    pub proof fn lemma_endorsement_after_removal(
        self,
        identity: crate::did::Pallet,
        endorser: u64,
        endorsee: u64,
        weight: u8,
    )
        requires
            !self.endorsed_rel(endorser, endorsee),
            endorser != endorsee,
            1 <= weight <= 10,
            Self::endorsement_authorized(identity, endorser, endorsee),
            self.given_of(endorser).len() < self.max_endorsements,
            self.received_of(endorsee).len() < self.max_endorsements,
        ensures
            self.endorse_outcome(identity, endorser, endorsee, weight) == Ok::<(), Error>(()),
    {
    }

    /// A full endorsement list rejects the endorsement: when either list
    /// is at capacity, endorsing cannot succeed, and once the earlier
    /// checks pass it fails precisely with `TooManyEndorsements` —
    /// leaving, by `endorse`'s contract, both lists unchanged.
    pub proof fn lemma_endorsement_capacity_enforced(
        self,
        identity: crate::did::Pallet,
        endorser: u64,
        endorsee: u64,
        weight: u8,
    )
        requires
            self.given_of(endorser).len() >= self.max_endorsements || self.received_of(
                endorsee,
            ).len() >= self.max_endorsements,
        ensures
            self.endorse_outcome(identity, endorser, endorsee, weight) != Ok::<(), Error>(()),
            (endorser != endorsee && 1 <= weight <= 10 && Self::endorsement_authorized(
                identity,
                endorser,
                endorsee,
            ) && !self.endorsed_rel(endorser, endorsee)) ==> self.endorse_outcome(
                identity,
                endorser,
                endorsee,
                weight,
            ) == Err::<(), Error>(Error::TooManyEndorsements),
    {
    }

    /// The pair relation is exactly the set of pairs with a live
    /// endorsement: every given-list entry is keyed by its endorser and
    /// names a live pair; every received-list entry is keyed by its
    /// endorsee and names a live pair; every live pair has an entry in
    /// both lists; and each list holds at most one entry per counterparty.
    pub open spec fn endorsement_inv(self) -> bool {
        &&& forall|a: u64, j: int|
            0 <= j < self.given_of(a).len() ==> (#[trigger] self.given_of(a)[j]).endorser == a
                && self.endorsed_rel(a, self.given_of(a)[j].endorsee)
        &&& forall|b: u64, j: int|
            0 <= j < self.received_of(b).len() ==> (#[trigger] self.received_of(b)[j]).endorsee
                == b && self.endorsed_rel(self.received_of(b)[j].endorser, b)
        &&& forall|a: u64, b: u64| #[trigger]
            self.endorsed_rel(a, b) ==> (exists|j: int|
                0 <= j < self.given_of(a).len() && self.given_of(a)[j].endorsee == b) && (
            exists|j: int|
                0 <= j < self.received_of(b).len() && self.received_of(b)[j].endorser == a)
        &&& forall|a: u64, i: int, j: int|
            0 <= i < j < self.given_of(a).len() ==> (#[trigger] self.given_of(a)[i]).endorsee
                != (#[trigger] self.given_of(a)[j]).endorsee
        &&& forall|b: u64, i: int, j: int|
            0 <= i < j < self.received_of(b).len() ==> (#[trigger] self.received_of(
                b,
            )[i]).endorser != (#[trigger] self.received_of(b)[j]).endorser
    }

    /// An empty engine satisfies the pair-relation invariant.
    pub proof fn lemma_empty_endorsement_inv(self)
        requires
            self.given_map() == Map::<u64, Seq<EndorsementV>>::empty(),
            self.received_map() == Map::<u64, Seq<EndorsementV>>::empty(),
            self.endorsed_map() == Map::<(u64, u64), bool>::empty(),
        ensures
            self.endorsement_inv(),
    {
    }

    /// A successful endorsement preserves the pair-relation invariant. The
    /// pre- and post-states are related exactly as `endorse`'s contract
    /// relates them, with `entry` the stored endorsement record.
    pub proof fn lemma_endorse_preserves_endorsement_inv(
        pre: Pallet,
        post: Pallet,
        endorser: u64,
        endorsee: u64,
        entry: EndorsementV,
    )
        requires
            pre.endorsement_inv(),
            !pre.endorsed_rel(endorser, endorsee),
            entry.endorser == endorser,
            entry.endorsee == endorsee,
            post.given_map() == pre.given_map().insert(
                endorser,
                pre.given_of(endorser).push(entry),
            ),
            post.received_map() == pre.received_map().insert(
                endorsee,
                pre.received_of(endorsee).push(entry),
            ),
            post.endorsed_map() == pre.endorsed_map().insert((endorser, endorsee), true),
        ensures
            post.endorsement_inv(),
    {
        assert forall|a: u64, j: int| 0 <= j < post.given_of(a).len() implies (#[trigger] post
            .given_of(a)[j]).endorser == a && post.endorsed_rel(
            a,
            post.given_of(a)[j].endorsee,
        ) by {
            if a == endorser {
                if j < pre.given_of(a).len() {
                    assert(post.given_of(a)[j] == pre.given_of(a)[j]);
                    assert(pre.endorsed_rel(a, pre.given_of(a)[j].endorsee));
                }
            } else {
                assert(post.given_of(a) == pre.given_of(a));
                assert(pre.endorsed_rel(a, pre.given_of(a)[j].endorsee));
            }
        }
        assert forall|b: u64, j: int| 0 <= j < post.received_of(b).len() implies (#[trigger] post
            .received_of(b)[j]).endorsee == b && post.endorsed_rel(
            post.received_of(b)[j].endorser,
            b,
        ) by {
            if b == endorsee {
                if j < pre.received_of(b).len() {
                    assert(post.received_of(b)[j] == pre.received_of(b)[j]);
                    assert(pre.endorsed_rel(pre.received_of(b)[j].endorser, b));
                }
            } else {
                assert(post.received_of(b) == pre.received_of(b));
                assert(pre.endorsed_rel(pre.received_of(b)[j].endorser, b));
            }
        }
        assert forall|a: u64, b: u64| #[trigger] post.endorsed_rel(a, b) implies (exists|j: int|
            0 <= j < post.given_of(a).len() && post.given_of(a)[j].endorsee == b) && (exists|
        j: int|
            0 <= j < post.received_of(b).len() && post.received_of(b)[j].endorser == a) by {
            if a == endorser && b == endorsee {
                let gl = pre.given_of(endorser).len() as int;
                assert(post.given_of(a)[gl].endorsee == b);
                let rl = pre.received_of(endorsee).len() as int;
                assert(post.received_of(b)[rl].endorser == a);
            } else {
                assert(pre.endorsed_rel(a, b));
                let j = choose|j: int|
                    0 <= j < pre.given_of(a).len() && pre.given_of(a)[j].endorsee == b;
                assert(post.given_of(a)[j].endorsee == b);
                let k = choose|k: int|
                    0 <= k < pre.received_of(b).len() && pre.received_of(b)[k].endorser == a;
                assert(post.received_of(b)[k].endorser == a);
            }
        }
        assert forall|a: u64, i: int, j: int| 0 <= i < j < post.given_of(a).len() implies (
        #[trigger] post.given_of(a)[i]).endorsee != (#[trigger] post.given_of(a)[j]).endorsee by {
            if a == endorser && j == pre.given_of(a).len() {
                assert(post.given_of(a)[i] == pre.given_of(a)[i]);
                assert(pre.endorsed_rel(a, pre.given_of(a)[i].endorsee));
            } else if a == endorser {
                assert(post.given_of(a)[i] == pre.given_of(a)[i]);
                assert(post.given_of(a)[j] == pre.given_of(a)[j]);
            } else {
                assert(post.given_of(a) == pre.given_of(a));
            }
        }
        assert forall|b: u64, i: int, j: int| 0 <= i < j < post.received_of(b).len() implies (
        #[trigger] post.received_of(b)[i]).endorser != (#[trigger] post.received_of(
            b,
        )[j]).endorser by {
            if b == endorsee && j == pre.received_of(b).len() {
                assert(post.received_of(b)[i] == pre.received_of(b)[i]);
                assert(pre.endorsed_rel(pre.received_of(b)[i].endorser, b));
            } else if b == endorsee {
                assert(post.received_of(b)[i] == pre.received_of(b)[i]);
                assert(post.received_of(b)[j] == pre.received_of(b)[j]);
            } else {
                assert(post.received_of(b) == pre.received_of(b));
            }
        }
    }

    /// A successful removal preserves the pair-relation invariant. The
    /// pre- and post-states are related exactly as `remove_endorsement`'s
    /// contract relates them.
    pub proof fn lemma_remove_preserves_endorsement_inv(
        pre: Pallet,
        post: Pallet,
        endorser: u64,
        endorsee: u64,
    )
        requires
            pre.endorsement_inv(),
            post.given_map() == pre.given_map().insert(
                endorser,
                pre.given_of(endorser).filter(|e: EndorsementV| e.endorsee != endorsee),
            ),
            post.received_map() == pre.received_map().insert(
                endorsee,
                pre.received_of(endorsee).filter(|e: EndorsementV| e.endorser != endorser),
            ),
            post.endorsed_map() == pre.endorsed_map().remove((endorser, endorsee)),
        ensures
            post.endorsement_inv(),
    {
        let gpred = |e: EndorsementV| e.endorsee != endorsee;
        let rpred = |e: EndorsementV| e.endorser != endorser;
        let gfiltered = pre.given_of(endorser).filter(gpred);
        let rfiltered = pre.received_of(endorsee).filter(rpred);
        assert forall|a: u64, j: int| 0 <= j < post.given_of(a).len() implies (#[trigger] post
            .given_of(a)[j]).endorser == a && post.endorsed_rel(
            a,
            post.given_of(a)[j].endorsee,
        ) by {
            if a == endorser {
                crate::store::lemma_filter_membership(pre.given_of(endorser), gpred, j);
                let k = choose|k: int|
                    0 <= k < pre.given_of(endorser).len() && pre.given_of(endorser)[k]
                        == gfiltered[j];
                assert(pre.endorsed_rel(a, pre.given_of(a)[k].endorsee));
                assert(gpred(gfiltered[j])) by {
                    pre.given_of(endorser).lemma_filter_pred(gpred, j);
                }
            } else {
                assert(post.given_of(a) == pre.given_of(a));
                assert(pre.endorsed_rel(a, pre.given_of(a)[j].endorsee));
            }
        }
        assert forall|b: u64, j: int| 0 <= j < post.received_of(b).len() implies (#[trigger] post
            .received_of(b)[j]).endorsee == b && post.endorsed_rel(
            post.received_of(b)[j].endorser,
            b,
        ) by {
            if b == endorsee {
                crate::store::lemma_filter_membership(pre.received_of(endorsee), rpred, j);
                let k = choose|k: int|
                    0 <= k < pre.received_of(endorsee).len() && pre.received_of(endorsee)[k]
                        == rfiltered[j];
                assert(pre.endorsed_rel(pre.received_of(b)[k].endorser, b));
                assert(rpred(rfiltered[j])) by {
                    pre.received_of(endorsee).lemma_filter_pred(rpred, j);
                }
            } else {
                assert(post.received_of(b) == pre.received_of(b));
                assert(pre.endorsed_rel(pre.received_of(b)[j].endorser, b));
            }
        }
        assert forall|a: u64, b: u64| #[trigger] post.endorsed_rel(a, b) implies (exists|j: int|
            0 <= j < post.given_of(a).len() && post.given_of(a)[j].endorsee == b) && (exists|
        k: int|
            0 <= k < post.received_of(b).len() && post.received_of(b)[k].endorser == a) by {
            assert(pre.endorsed_rel(a, b));
            assert(!(a == endorser && b == endorsee));
            let j = choose|j: int|
                0 <= j < pre.given_of(a).len() && pre.given_of(a)[j].endorsee == b;
            if a == endorser {
                pre.given_of(endorser).lemma_filter_contains(gpred, j);
                assert(gfiltered.contains(pre.given_of(a)[j]));
                let j2 = choose|j2: int|
                    0 <= j2 < gfiltered.len() && gfiltered[j2] == pre.given_of(a)[j];
                assert(post.given_of(a)[j2].endorsee == b);
            } else {
                assert(post.given_of(a)[j].endorsee == b);
            }
            let k = choose|k: int|
                0 <= k < pre.received_of(b).len() && pre.received_of(b)[k].endorser == a;
            if b == endorsee {
                pre.received_of(endorsee).lemma_filter_contains(rpred, k);
                assert(rfiltered.contains(pre.received_of(b)[k]));
                let k2 = choose|k2: int|
                    0 <= k2 < rfiltered.len() && rfiltered[k2] == pre.received_of(b)[k];
                assert(post.received_of(b)[k2].endorser == a);
            } else {
                assert(post.received_of(b)[k].endorser == a);
            }
        }
        assert forall|a: u64, i: int, j: int| 0 <= i < j < post.given_of(a).len() implies (
        #[trigger] post.given_of(a)[i]).endorsee != (#[trigger] post.given_of(a)[j]).endorsee by {
            if a == endorser {
                crate::store::lemma_filter_keeps_distinct(
                    pre.given_of(endorser),
                    gpred,
                    |e: EndorsementV| e.endorsee,
                );
            } else {
                assert(post.given_of(a) == pre.given_of(a));
            }
        }
        assert forall|b: u64, i: int, j: int| 0 <= i < j < post.received_of(b).len() implies (
        #[trigger] post.received_of(b)[i]).endorser != (#[trigger] post.received_of(
            b,
        )[j]).endorser by {
            if b == endorsee {
                crate::store::lemma_filter_keeps_distinct(
                    pre.received_of(endorsee),
                    rpred,
                    |e: EndorsementV| e.endorser,
                );
            } else {
                assert(post.received_of(b) == pre.received_of(b));
            }
        }
    }
}

/// The derived total a score's counters yield:
/// `min(1000, issued * 10 + verified * 5 + received * 20)`.
pub fn calculate_reputation_score(score: &ReputationScore) -> (r: u32)
    ensures
        r == score_formula(*score),
{
    let credentials_score = (score.credentials_issued as u64) * 10;
    let verification_score = (score.credentials_verified as u64) * 5;
    let endorsement_score = (score.endorsements_received as u64) * 20;
    let total = credentials_score + verification_score + endorsement_score;
    if total >= 1000 {
        1000
    } else {
        total as u32
    }
}

/// The derived total never exceeds its cap of 1000, whatever the counters
/// hold; the counters themselves are uncapped.
pub proof fn lemma_score_capped(s: ReputationScore)
    ensures
        score_formula(s) <= 1000,
{
}

} // verus!
