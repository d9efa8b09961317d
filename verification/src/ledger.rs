//! The ledger model: every record lives at an address that is a
//! deterministic function of its scope, and an address can be initialized
//! only once. Providers are keyed by id, courses by (provider, id),
//! commitments by (provider, course), credentials by
//! (provider, course, recipient) and enrollments by (course, participant).
//! Each public operation is atomic: it either performs its whole effect or
//! returns an error and leaves the ledger exactly as it was.

use vstd::prelude::*;

use crate::hash::keccak_of;
use crate::merkle::proof_verifies;
use crate::records::ApecErrorCode;
use crate::records::CertProof;
use crate::records::CertProofV;
use crate::records::Course;
use crate::records::CourseV;
use crate::records::MintAuthority;
use crate::records::Provider;
use crate::records::ProviderV;
use crate::records::TokenRecord;
use crate::records::TokenRecordV;
use crate::records::MAX_COURSE_NAME_LEN;
use crate::records::MAX_PROVIDER_NAME_LEN;

verus! {

/// The mathematical view of the ledger.
#[verifier::ext_equal]
pub struct LedgerV {
    pub providers: Seq<ProviderV>,
    pub courses: Seq<CourseV>,
    pub commitments: Seq<CertProofV>,
    pub credentials: Seq<TokenRecordV>,
    pub enrollments: Seq<TokenRecordV>,
}

/// The ledger: the shared store that all operations run against.
pub struct Ledger {
    pub providers: Vec<Provider>,
    pub courses: Vec<Course>,
    pub commitments: Vec<CertProof>,
    pub credentials: Vec<TokenRecord>,
    pub enrollments: Vec<TokenRecord>,
}

impl View for Ledger {
    type V = LedgerV;

    open spec fn view(&self) -> LedgerV {
        LedgerV {
            providers: self.providers@.map_values(|p: Provider| p@),
            courses: self.courses@.map_values(|c: Course| c@),
            commitments: self.commitments@.map_values(|c: CertProof| c@),
            credentials: self.credentials@.map_values(|t: TokenRecord| t@),
            enrollments: self.enrollments@.map_values(|t: TokenRecord| t@),
        }
    }
}

/// How many credentials in `tokens` are scoped to the (provider, course)
/// pair; what the commitment's claimed counter tracks.
pub open spec fn count_for_pair(tokens: Seq<TokenRecordV>, provider: u64, course: u64) -> nat
    decreases tokens.len(),
{
    if tokens.len() == 0 {
        0
    } else {
        count_for_pair(tokens.drop_last(), provider, course) + if tokens.last().provider
            == provider && tokens.last().course == course {
            1nat
        } else {
            0nat
        }
    }
}

/// How many tokens in `tokens` are bound to the exact
/// (provider, course, holder) triple.
pub open spec fn count_for_triple(
    tokens: Seq<TokenRecordV>,
    provider: u64,
    course: u64,
    holder: Seq<u8>,
) -> nat
    decreases tokens.len(),
{
    if tokens.len() == 0 {
        0
    } else {
        count_for_triple(tokens.drop_last(), provider, course, holder) + if tokens.last().provider
            == provider && tokens.last().course == course && tokens.last().holder == holder {
            1nat
        } else {
            0nat
        }
    }
}

impl LedgerV {
    /// A provider with this id exists.
    pub open spec fn has_provider(self, provider: u64) -> bool {
        exists|j: int| 0 <= j < self.providers.len() && self.providers[j].id == provider
    }

    /// The provider record with this id (meaningful under `wf`, which
    /// makes it unique).
    pub open spec fn provider_at(self, provider: u64) -> ProviderV {
        self.providers[choose|j: int|
            0 <= j < self.providers.len() && self.providers[j].id == provider]
    }

    /// A course with this id exists under this provider.
    pub open spec fn has_course(self, provider: u64, course: u64) -> bool {
        exists|j: int|
            0 <= j < self.courses.len() && self.courses[j].provider == provider
                && self.courses[j].id == course
    }

    /// A commitment exists for this (provider, course) pair.
    pub open spec fn has_commitment(self, provider: u64, course: u64) -> bool {
        exists|j: int|
            0 <= j < self.commitments.len() && self.commitments[j].provider == provider
                && self.commitments[j].course == course
    }

    /// The index of the commitment for this pair (meaningful under `wf`).
    pub open spec fn commitment_index(self, provider: u64, course: u64) -> int {
        choose|j: int|
            0 <= j < self.commitments.len() && self.commitments[j].provider == provider
                && self.commitments[j].course == course
    }

    /// The commitment record for this pair (meaningful under `wf`).
    pub open spec fn commitment_at(self, provider: u64, course: u64) -> CertProofV {
        self.commitments[self.commitment_index(provider, course)]
    }

    /// A credential bound to this (provider, course, recipient) triple
    /// exists.
    pub open spec fn has_credential(
        self,
        provider: u64,
        course: u64,
        recipient: Seq<u8>,
    ) -> bool {
        exists|j: int|
            0 <= j < self.credentials.len() && self.credentials[j].provider == provider
                && self.credentials[j].course == course && self.credentials[j].holder == recipient
    }

    /// An enrollment bound to this (course, participant) pair exists.
    pub open spec fn has_enrollment(
        self,
        provider: u64,
        course: u64,
        participant: Seq<u8>,
    ) -> bool {
        exists|j: int|
            0 <= j < self.enrollments.len() && self.enrollments[j].provider == provider
                && self.enrollments[j].course == course && self.enrollments[j].holder
                == participant
    }

    /// Each address holds at most one record: ids and key tuples are
    /// pairwise distinct within every store.
    pub open spec fn keys_unique(self) -> bool {
        &&& forall|i: int, j: int|
            #![trigger self.providers[i], self.providers[j]]
            0 <= i < j < self.providers.len() ==> self.providers[i].id != self.providers[j].id
        &&& forall|i: int, j: int|
            #![trigger self.courses[i], self.courses[j]]
            0 <= i < j < self.courses.len() ==> !(self.courses[i].provider
                == self.courses[j].provider && self.courses[i].id == self.courses[j].id)
        &&& forall|i: int, j: int|
            #![trigger self.commitments[i], self.commitments[j]]
            0 <= i < j < self.commitments.len() ==> !(self.commitments[i].provider
                == self.commitments[j].provider && self.commitments[i].course
                == self.commitments[j].course)
        &&& forall|i: int, j: int|
            #![trigger self.credentials[i], self.credentials[j]]
            0 <= i < j < self.credentials.len() ==> !(self.credentials[i].provider
                == self.credentials[j].provider && self.credentials[i].course
                == self.credentials[j].course && self.credentials[i].holder
                == self.credentials[j].holder)
        &&& forall|i: int, j: int|
            #![trigger self.enrollments[i], self.enrollments[j]]
            0 <= i < j < self.enrollments.len() ==> !(self.enrollments[i].provider
                == self.enrollments[j].provider && self.enrollments[i].course
                == self.enrollments[j].course && self.enrollments[i].holder
                == self.enrollments[j].holder)
    }

    /// Every record's scope refers to records that exist: courses to their
    /// provider, commitments to their course, credentials to their
    /// commitment, enrollments to their course.
    pub open spec fn refs_exist(self) -> bool {
        &&& forall|j: int|
            0 <= j < self.courses.len() ==> self.has_provider(#[trigger] self.courses[j].provider)
        &&& forall|j: int|
            #![trigger self.commitments[j]]
            0 <= j < self.commitments.len() ==> self.has_course(
                self.commitments[j].provider,
                self.commitments[j].course,
            )
        &&& forall|j: int|
            #![trigger self.credentials[j]]
            0 <= j < self.credentials.len() ==> self.has_commitment(
                self.credentials[j].provider,
                self.credentials[j].course,
            )
        &&& forall|j: int|
            #![trigger self.enrollments[j]]
            0 <= j < self.enrollments.len() ==> self.has_course(
                self.enrollments[j].provider,
                self.enrollments[j].course,
            )
    }

    /// Every issued token is final: exactly one unit was minted and the
    /// mint authority was revoked in the same operation that minted it.
    pub open spec fn tokens_final(self) -> bool {
        &&& forall|j: int|
            #![trigger self.credentials[j]]
            0 <= j < self.credentials.len() ==> self.credentials[j].supply == 1
                && self.credentials[j].mint_authority is Revoked
        &&& forall|j: int|
            #![trigger self.enrollments[j]]
            0 <= j < self.enrollments.len() ==> self.enrollments[j].supply == 1
                && self.enrollments[j].mint_authority is Revoked
    }

    /// Display names respect their limits.
    pub open spec fn names_bounded(self) -> bool {
        &&& forall|j: int|
            0 <= j < self.providers.len() ==> (#[trigger] self.providers[j].short_name).len()
                <= MAX_PROVIDER_NAME_LEN
        &&& forall|j: int|
            0 <= j < self.courses.len() ==> (#[trigger] self.courses[j].short_name).len()
                <= MAX_COURSE_NAME_LEN
    }

    /// Every commitment's claimed counter equals the number of credentials
    /// issued for its (provider, course) pair.
    pub open spec fn claimed_accurate(self) -> bool {
        forall|j: int|
            #![trigger self.commitments[j]]
            0 <= j < self.commitments.len() ==> self.commitments[j].claimed == count_for_pair(
                self.credentials,
                self.commitments[j].provider,
                self.commitments[j].course,
            )
    }

    /// Well-formedness: what holds of the empty ledger and is preserved by
    /// every operation.
    pub open spec fn wf(self) -> bool {
        &&& self.keys_unique()
        &&& self.refs_exist()
        &&& self.tokens_final()
        &&& self.names_bounded()
        &&& self.claimed_accurate()
    }
}

/// Any index holding the (provider, course) keys is the commitment index.
pub proof fn lemma_commitment_index_is(s: LedgerV, k: int, provider: u64, course: u64)
    requires
        s.keys_unique(),
        0 <= k < s.commitments.len(),
        s.commitments[k].provider == provider,
        s.commitments[k].course == course,
    ensures
        s.commitment_index(provider, course) == k,
        s.commitment_at(provider, course) == s.commitments[k],
{
    assert(s.has_commitment(provider, course));
    let j = s.commitment_index(provider, course);
    if j != k {
        if j < k {
            assert(!(s.commitments[j].provider == s.commitments[k].provider && s.commitments[j].course
                == s.commitments[k].course));
        } else {
            assert(!(s.commitments[k].provider == s.commitments[j].provider && s.commitments[k].course
                == s.commitments[j].course));
        }
    }
}

/// Any index holding the provider id is the provider's index.
pub proof fn lemma_provider_at_is(s: LedgerV, k: int, provider: u64)
    requires
        s.keys_unique(),
        0 <= k < s.providers.len(),
        s.providers[k].id == provider,
    ensures
        s.provider_at(provider) == s.providers[k],
{
    let j = choose|j: int| 0 <= j < s.providers.len() && s.providers[j].id == provider;
    if j != k {
        if j < k {
            assert(s.providers[j].id != s.providers[k].id);
        } else {
            assert(s.providers[k].id != s.providers[j].id);
        }
    }
}

/// The pair count never exceeds the number of tokens.
pub proof fn lemma_count_for_pair_le_len(tokens: Seq<TokenRecordV>, provider: u64, course: u64)
    ensures
        count_for_pair(tokens, provider, course) <= tokens.len(),
    decreases tokens.len(),
{
    if tokens.len() > 0 {
        lemma_count_for_pair_le_len(tokens.drop_last(), provider, course);
    }
}

/// Appending one token raises the pair count by one exactly when the
/// token is scoped to the pair.
pub proof fn lemma_count_for_pair_push(
    tokens: Seq<TokenRecordV>,
    t: TokenRecordV,
    provider: u64,
    course: u64,
)
    ensures
        count_for_pair(tokens.push(t), provider, course) == count_for_pair(
            tokens,
            provider,
            course,
        ) + if t.provider == provider && t.course == course {
            1nat
        } else {
            0nat
        },
{
    assert(tokens.push(t).drop_last() =~= tokens);
    assert(tokens.push(t).last() == t);
}

/// Appending one token raises the triple count by one exactly when the
/// token is bound to the triple.
pub proof fn lemma_count_for_triple_push(
    tokens: Seq<TokenRecordV>,
    t: TokenRecordV,
    provider: u64,
    course: u64,
    holder: Seq<u8>,
)
    ensures
        count_for_triple(tokens.push(t), provider, course, holder) == count_for_triple(
            tokens,
            provider,
            course,
            holder,
        ) + if t.provider == provider && t.course == course && t.holder == holder {
            1nat
        } else {
            0nat
        },
{
    assert(tokens.push(t).drop_last() =~= tokens);
    assert(tokens.push(t).last() == t);
}

/// What `init_provider` returns on a given ledger: the name must fit and
/// the provider's address, a function of its id alone, must be fresh.
pub open spec fn init_provider_outcome(
    s: LedgerV,
    id: u64,
    authority: Seq<u8>,
    short_name: Seq<char>,
) -> Result<(), ApecErrorCode> {
    if short_name.len() > MAX_PROVIDER_NAME_LEN as nat {
        Err(ApecErrorCode::NameTooLong)
    } else if s.has_provider(id) {
        Err(ApecErrorCode::AlreadyInitialized)
    } else {
        Ok(())
    }
}

/// The ledger after `init_provider`: unchanged on error, one appended
/// provider record on success.
pub open spec fn init_provider_next(
    s: LedgerV,
    id: u64,
    authority: Seq<u8>,
    short_name: Seq<char>,
) -> LedgerV {
    if init_provider_outcome(s, id, authority, short_name) is Ok {
        LedgerV { providers: s.providers.push(ProviderV { id, authority, short_name }), ..s }
    } else {
        s
    }
}

/// `init_provider` preserves well-formedness.
pub proof fn lemma_init_provider_preserves_wf(
    s: LedgerV,
    id: u64,
    authority: Seq<u8>,
    short_name: Seq<char>,
)
    requires
        s.wf(),
    ensures
        init_provider_next(s, id, authority, short_name).wf(),
{
    if init_provider_outcome(s, id, authority, short_name) is Ok {
        let s2 = init_provider_next(s, id, authority, short_name);
        assert forall|i: int, j: int|
            #![trigger s2.providers[i], s2.providers[j]]
            0 <= i < j < s2.providers.len() implies s2.providers[i].id != s2.providers[j].id by {
            assert(s2.providers[i] == s.providers[i]);
            if j < s.providers.len() {
                assert(s2.providers[j] == s.providers[j]);
            } else {
                assert(s2.providers[j].id == id);
                if s.providers[i].id == id {
                    assert(s.has_provider(id));
                }
            }
        }
        assert(s2.keys_unique());
        assert forall|j: int| 0 <= j < s2.courses.len() implies s2.has_provider(
            #[trigger] s2.courses[j].provider,
        ) by {
            assert(s.has_provider(s.courses[j].provider));
            let w = choose|w: int|
                0 <= w < s.providers.len() && s.providers[w].id == s.courses[j].provider;
            assert(s2.providers[w] == s.providers[w]);
            assert(s2.providers[w].id == s2.courses[j].provider);
        }
        assert forall|j: int|
            #![trigger s2.commitments[j]]
            0 <= j < s2.commitments.len() implies s2.has_course(
                s2.commitments[j].provider,
                s2.commitments[j].course,
            ) by {
            let w = choose|w: int|
                0 <= w < s.courses.len() && s.courses[w].provider == s.commitments[j].provider
                    && s.courses[w].id == s.commitments[j].course;
            assert(s2.courses[w] == s.courses[w]);
        }
        assert forall|j: int|
            #![trigger s2.credentials[j]]
            0 <= j < s2.credentials.len() implies s2.has_commitment(
                s2.credentials[j].provider,
                s2.credentials[j].course,
            ) by {
            let w = choose|w: int|
                0 <= w < s.commitments.len() && s.commitments[w].provider
                    == s.credentials[j].provider && s.commitments[w].course
                    == s.credentials[j].course;
            assert(s2.commitments[w] == s.commitments[w]);
        }
        assert forall|j: int|
            #![trigger s2.enrollments[j]]
            0 <= j < s2.enrollments.len() implies s2.has_course(
                s2.enrollments[j].provider,
                s2.enrollments[j].course,
            ) by {
            let w = choose|w: int|
                0 <= w < s.courses.len() && s.courses[w].provider == s.enrollments[j].provider
                    && s.courses[w].id == s.enrollments[j].course;
            assert(s2.courses[w] == s.courses[w]);
        }
        assert(s2.refs_exist());
        assert(s2.tokens_final());
        assert forall|j: int| 0 <= j < s2.providers.len() implies (
        #[trigger] s2.providers[j].short_name).len() <= MAX_PROVIDER_NAME_LEN by {
            if j < s.providers.len() {
                assert(s2.providers[j] == s.providers[j]);
            } else {
                assert(s2.providers[j].short_name == short_name);
            }
        }
        assert(s2.names_bounded());
        assert(s2.claimed_accurate());
    }
}

/// What `create_course` returns on a given ledger: the provider must
/// exist, the caller must be its recorded authority, the name must fit,
/// and the course's address, a function of (provider, id), must be fresh.
pub open spec fn create_course_outcome(
    s: LedgerV,
    provider: u64,
    authority: Seq<u8>,
    id: u64,
    short_name: Seq<char>,
) -> Result<(), ApecErrorCode> {
    if !s.has_provider(provider) {
        Err(ApecErrorCode::NotFound)
    } else if s.provider_at(provider).authority != authority {
        Err(ApecErrorCode::Unauthorized)
    } else if short_name.len() > MAX_COURSE_NAME_LEN as nat {
        Err(ApecErrorCode::NameTooLong)
    } else if s.has_course(provider, id) {
        Err(ApecErrorCode::AlreadyInitialized)
    } else {
        Ok(())
    }
}

/// The ledger after `create_course`: unchanged on error, one appended
/// course record on success.
pub open spec fn create_course_next(
    s: LedgerV,
    provider: u64,
    authority: Seq<u8>,
    id: u64,
    short_name: Seq<char>,
) -> LedgerV {
    if create_course_outcome(s, provider, authority, id, short_name) is Ok {
        LedgerV { courses: s.courses.push(CourseV { id, provider, short_name }), ..s }
    } else {
        s
    }
}

/// `create_course` preserves well-formedness.
pub proof fn lemma_create_course_preserves_wf(
    s: LedgerV,
    provider: u64,
    authority: Seq<u8>,
    id: u64,
    short_name: Seq<char>,
)
    requires
        s.wf(),
    ensures
        create_course_next(s, provider, authority, id, short_name).wf(),
{
    if create_course_outcome(s, provider, authority, id, short_name) is Ok {
        let s2 = create_course_next(s, provider, authority, id, short_name);
        assert forall|i: int, j: int|
            #![trigger s2.courses[i], s2.courses[j]]
            0 <= i < j < s2.courses.len() implies !(s2.courses[i].provider == s2.courses[j].provider
                && s2.courses[i].id == s2.courses[j].id) by {
            assert(s2.courses[i] == s.courses[i]);
            if j < s.courses.len() {
                assert(s2.courses[j] == s.courses[j]);
            } else {
                if s.courses[i].provider == provider && s.courses[i].id == id {
                    assert(s.has_course(provider, id));
                }
            }
        }
        assert forall|j: int| 0 <= j < s2.courses.len() implies s2.has_provider(
            #[trigger] s2.courses[j].provider,
        ) by {
            if j < s.courses.len() {
                assert(s2.courses[j] == s.courses[j]);
                assert(s.has_provider(s.courses[j].provider));
                let w = choose|w: int|
                    0 <= w < s.providers.len() && s.providers[w].id == s.courses[j].provider;
                assert(s2.providers[w].id == s2.courses[j].provider);
            } else {
                assert(s2.courses[j].provider == provider);
                let w = choose|w: int| 0 <= w < s.providers.len() && s.providers[w].id == provider;
                assert(s2.providers[w].id == s2.courses[j].provider);
            }
        }
        assert forall|j: int|
            #![trigger s2.commitments[j]]
            0 <= j < s2.commitments.len() implies s2.has_course(
                s2.commitments[j].provider,
                s2.commitments[j].course,
            ) by {
            assert(s.has_course(s.commitments[j].provider, s.commitments[j].course));
            let w = choose|w: int|
                0 <= w < s.courses.len() && s.courses[w].provider == s.commitments[j].provider
                    && s.courses[w].id == s.commitments[j].course;
            assert(s2.courses[w] == s.courses[w]);
        }
        assert forall|j: int|
            #![trigger s2.enrollments[j]]
            0 <= j < s2.enrollments.len() implies s2.has_course(
                s2.enrollments[j].provider,
                s2.enrollments[j].course,
            ) by {
            assert(s.has_course(s.enrollments[j].provider, s.enrollments[j].course));
            let w = choose|w: int|
                0 <= w < s.courses.len() && s.courses[w].provider == s.enrollments[j].provider
                    && s.courses[w].id == s.enrollments[j].course;
            assert(s2.courses[w] == s.courses[w]);
        }
        assert forall|j: int|
            #![trigger s2.credentials[j]]
            0 <= j < s2.credentials.len() implies s2.has_commitment(
                s2.credentials[j].provider,
                s2.credentials[j].course,
            ) by {
            let w = choose|w: int|
                0 <= w < s.commitments.len() && s.commitments[w].provider
                    == s.credentials[j].provider && s.commitments[w].course
                    == s.credentials[j].course;
            assert(s2.commitments[w] == s.commitments[w]);
        }
        assert(s2.keys_unique());
        assert(s2.refs_exist());
        assert(s2.tokens_final());
        assert forall|j: int| 0 <= j < s2.courses.len() implies (
        #[trigger] s2.courses[j].short_name).len() <= MAX_COURSE_NAME_LEN by {
            if j < s.courses.len() {
                assert(s2.courses[j] == s.courses[j]);
            } else {
                assert(s2.courses[j].short_name == short_name);
            }
        }
        assert(s2.names_bounded());
        assert(s2.claimed_accurate());
    }
}

/// When no token is scoped to the pair, the pair count is zero.
pub proof fn lemma_count_for_pair_zero(tokens: Seq<TokenRecordV>, provider: u64, course: u64)
    requires
        forall|j: int|
            #![trigger tokens[j]]
            0 <= j < tokens.len() ==> !(tokens[j].provider == provider && tokens[j].course
                == course),
    ensures
        count_for_pair(tokens, provider, course) == 0,
    decreases tokens.len(),
{
    if tokens.len() > 0 {
        assert(tokens.last() == tokens[tokens.len() - 1]);
        assert(forall|j: int|
            #![trigger tokens.drop_last()[j]]
            0 <= j < tokens.drop_last().len() ==> tokens.drop_last()[j] == tokens[j]);
        lemma_count_for_pair_zero(tokens.drop_last(), provider, course);
    }
}

/// What `publish_commitment` (`create_cert_proof`) returns: the
/// (provider, course) pair must exist in the registry and the
/// commitment's address, a function of that pair, must be fresh. Any
/// caller may publish; no authority is checked.
pub open spec fn create_cert_proof_outcome(
    s: LedgerV,
    provider: u64,
    course: u64,
    root: Seq<u8>,
    total: u64,
) -> Result<(), ApecErrorCode> {
    if !s.has_provider(provider) {
        Err(ApecErrorCode::NotFound)
    } else if !s.has_course(provider, course) {
        Err(ApecErrorCode::NotFound)
    } else if s.has_commitment(provider, course) {
        Err(ApecErrorCode::AlreadyInitialized)
    } else {
        Ok(())
    }
}

/// The ledger after `create_cert_proof`: unchanged on error, one
/// appended commitment with a zero claimed counter on success.
pub open spec fn create_cert_proof_next(
    s: LedgerV,
    provider: u64,
    course: u64,
    root: Seq<u8>,
    total: u64,
) -> LedgerV {
    if create_cert_proof_outcome(s, provider, course, root, total) is Ok {
        LedgerV {
            commitments: s.commitments.push(
                CertProofV { provider, course, root, total, claimed: 0 },
            ),
            ..s
        }
    } else {
        s
    }
}

/// `create_cert_proof` preserves well-formedness.
pub proof fn lemma_create_cert_proof_preserves_wf(
    s: LedgerV,
    provider: u64,
    course: u64,
    root: Seq<u8>,
    total: u64,
)
    requires
        s.wf(),
    ensures
        create_cert_proof_next(s, provider, course, root, total).wf(),
{
    if create_cert_proof_outcome(s, provider, course, root, total) is Ok {
        let s2 = create_cert_proof_next(s, provider, course, root, total);
        assert forall|i: int, j: int|
            #![trigger s2.commitments[i], s2.commitments[j]]
            0 <= i < j < s2.commitments.len() implies !(s2.commitments[i].provider
                == s2.commitments[j].provider && s2.commitments[i].course
                == s2.commitments[j].course) by {
            assert(s2.commitments[i] == s.commitments[i]);
            if j < s.commitments.len() {
                assert(s2.commitments[j] == s.commitments[j]);
            } else {
                if s.commitments[i].provider == provider && s.commitments[i].course == course {
                    assert(s.has_commitment(provider, course));
                }
            }
        }
        assert(s2.keys_unique());
        assert forall|j: int| 0 <= j < s2.courses.len() implies s2.has_provider(
            #[trigger] s2.courses[j].provider,
        ) by {
            let w = choose|w: int|
                0 <= w < s.providers.len() && s.providers[w].id == s.courses[j].provider;
            assert(s2.providers[w] == s.providers[w]);
        }
        assert forall|j: int|
            #![trigger s2.commitments[j]]
            0 <= j < s2.commitments.len() implies s2.has_course(
                s2.commitments[j].provider,
                s2.commitments[j].course,
            ) by {
            if j < s.commitments.len() {
                assert(s2.commitments[j] == s.commitments[j]);
                let w = choose|w: int|
                    0 <= w < s.courses.len() && s.courses[w].provider == s.commitments[j].provider
                        && s.courses[w].id == s.commitments[j].course;
                assert(s2.courses[w] == s.courses[w]);
            } else {
                assert(s2.commitments[j].provider == provider);
                assert(s2.commitments[j].course == course);
                let w = choose|w: int|
                    0 <= w < s.courses.len() && s.courses[w].provider == provider && s.courses[w].id
                        == course;
                assert(s2.courses[w] == s.courses[w]);
            }
        }
        assert forall|j: int|
            #![trigger s2.credentials[j]]
            0 <= j < s2.credentials.len() implies s2.has_commitment(
                s2.credentials[j].provider,
                s2.credentials[j].course,
            ) by {
            let w = choose|w: int|
                0 <= w < s.commitments.len() && s.commitments[w].provider
                    == s.credentials[j].provider && s.commitments[w].course
                    == s.credentials[j].course;
            assert(s2.commitments[w] == s.commitments[w]);
        }
        assert forall|j: int|
            #![trigger s2.enrollments[j]]
            0 <= j < s2.enrollments.len() implies s2.has_course(
                s2.enrollments[j].provider,
                s2.enrollments[j].course,
            ) by {
            let w = choose|w: int|
                0 <= w < s.courses.len() && s.courses[w].provider == s.enrollments[j].provider
                    && s.courses[w].id == s.enrollments[j].course;
            assert(s2.courses[w] == s.courses[w]);
        }
        assert(s2.refs_exist());
        assert(s2.tokens_final());
        assert(s2.names_bounded());
        assert forall|j: int|
            #![trigger s2.commitments[j]]
            0 <= j < s2.commitments.len() implies s2.commitments[j].claimed == count_for_pair(
                s2.credentials,
                s2.commitments[j].provider,
                s2.commitments[j].course,
            ) by {
            if j < s.commitments.len() {
                assert(s2.commitments[j] == s.commitments[j]);
            } else {
                assert forall|w: int|
                    #![trigger s.credentials[w]]
                    0 <= w < s.credentials.len() implies !(s.credentials[w].provider == provider
                        && s.credentials[w].course == course) by {
                    if s.credentials[w].provider == provider && s.credentials[w].course == course {
                        assert(s.has_commitment(provider, course));
                    }
                }
                lemma_count_for_pair_zero(s.credentials, provider, course);
            }
        }
        assert(s2.claimed_accurate());
    }
}

/// What `enroll_course` returns: the course must exist and the
/// enrollment's address, a function of (course, participant), must be
/// fresh. Enrollment is open: no proof and no authority are required.
pub open spec fn enroll_course_outcome(
    s: LedgerV,
    provider: u64,
    course: u64,
    participant: Seq<u8>,
) -> Result<(), ApecErrorCode> {
    if !s.has_course(provider, course) {
        Err(ApecErrorCode::NotFound)
    } else if s.has_enrollment(provider, course, participant) {
        Err(ApecErrorCode::AlreadyInitialized)
    } else {
        Ok(())
    }
}

/// The ledger after `enroll_course`: unchanged on error; on success one
/// appended enrollment token with its single unit minted and its mint
/// authority already revoked.
pub open spec fn enroll_course_next(
    s: LedgerV,
    provider: u64,
    course: u64,
    participant: Seq<u8>,
    name: Seq<char>,
    symbol: Seq<char>,
    uri: Seq<char>,
) -> LedgerV {
    if enroll_course_outcome(s, provider, course, participant) is Ok {
        LedgerV {
            enrollments: s.enrollments.push(
                TokenRecordV {
                    provider,
                    course,
                    holder: participant,
                    supply: 1,
                    mint_authority: MintAuthority::Revoked,
                    name,
                    symbol,
                    uri,
                },
            ),
            ..s
        }
    } else {
        s
    }
}

/// `enroll_course` preserves well-formedness.
pub proof fn lemma_enroll_course_preserves_wf(
    s: LedgerV,
    provider: u64,
    course: u64,
    participant: Seq<u8>,
    name: Seq<char>,
    symbol: Seq<char>,
    uri: Seq<char>,
)
    requires
        s.wf(),
    ensures
        enroll_course_next(s, provider, course, participant, name, symbol, uri).wf(),
{
    if enroll_course_outcome(s, provider, course, participant) is Ok {
        let s2 = enroll_course_next(s, provider, course, participant, name, symbol, uri);
        assert forall|i: int, j: int|
            #![trigger s2.enrollments[i], s2.enrollments[j]]
            0 <= i < j < s2.enrollments.len() implies !(s2.enrollments[i].provider
                == s2.enrollments[j].provider && s2.enrollments[i].course
                == s2.enrollments[j].course && s2.enrollments[i].holder
                == s2.enrollments[j].holder) by {
            assert(s2.enrollments[i] == s.enrollments[i]);
            if j < s.enrollments.len() {
                assert(s2.enrollments[j] == s.enrollments[j]);
            } else {
                if s.enrollments[i].provider == provider && s.enrollments[i].course == course
                    && s.enrollments[i].holder == participant {
                    assert(s.has_enrollment(provider, course, participant));
                }
            }
        }
        assert(s2.keys_unique());
        assert forall|j: int| 0 <= j < s2.courses.len() implies s2.has_provider(
            #[trigger] s2.courses[j].provider,
        ) by {
            let w = choose|w: int|
                0 <= w < s.providers.len() && s.providers[w].id == s.courses[j].provider;
            assert(s2.providers[w] == s.providers[w]);
        }
        assert forall|j: int|
            #![trigger s2.commitments[j]]
            0 <= j < s2.commitments.len() implies s2.has_course(
                s2.commitments[j].provider,
                s2.commitments[j].course,
            ) by {
            let w = choose|w: int|
                0 <= w < s.courses.len() && s.courses[w].provider == s.commitments[j].provider
                    && s.courses[w].id == s.commitments[j].course;
            assert(s2.courses[w] == s.courses[w]);
        }
        assert forall|j: int|
            #![trigger s2.credentials[j]]
            0 <= j < s2.credentials.len() implies s2.has_commitment(
                s2.credentials[j].provider,
                s2.credentials[j].course,
            ) by {
            let w = choose|w: int|
                0 <= w < s.commitments.len() && s.commitments[w].provider
                    == s.credentials[j].provider && s.commitments[w].course
                    == s.credentials[j].course;
            assert(s2.commitments[w] == s.commitments[w]);
        }
        assert forall|j: int|
            #![trigger s2.enrollments[j]]
            0 <= j < s2.enrollments.len() implies s2.has_course(
                s2.enrollments[j].provider,
                s2.enrollments[j].course,
            ) by {
            if j < s.enrollments.len() {
                assert(s2.enrollments[j] == s.enrollments[j]);
                let w = choose|w: int|
                    0 <= w < s.courses.len() && s.courses[w].provider == s.enrollments[j].provider
                        && s.courses[w].id == s.enrollments[j].course;
                assert(s2.courses[w] == s.courses[w]);
            } else {
                let w = choose|w: int|
                    0 <= w < s.courses.len() && s.courses[w].provider == provider && s.courses[w].id
                        == course;
                assert(s2.courses[w] == s.courses[w]);
            }
        }
        assert(s2.refs_exist());
        assert(s2.tokens_final());
        assert(s2.names_bounded());
        assert(s2.claimed_accurate());
    }
}

/// What `claim_cert` returns: the provider, course and commitment must
/// exist, the credential's address — a function of
/// (provider, course, recipient) — must be fresh, and the Merkle proof
/// must connect the hash of the claimer's identity to the published root.
pub open spec fn claim_cert_outcome(
    s: LedgerV,
    provider: u64,
    course: u64,
    claimer: Seq<u8>,
    siblings: Seq<Seq<u8>>,
) -> Result<(), ApecErrorCode> {
    if !s.has_provider(provider) {
        Err(ApecErrorCode::NotFound)
    } else if !s.has_course(provider, course) {
        Err(ApecErrorCode::NotFound)
    } else if !s.has_commitment(provider, course) {
        Err(ApecErrorCode::NotFound)
    } else if s.has_credential(provider, course, claimer) {
        Err(ApecErrorCode::AlreadyInitialized)
    } else if !proof_verifies(
        keccak_of(claimer),
        s.commitment_at(provider, course).root,
        siblings,
    ) {
        Err(ApecErrorCode::InvalidProof)
    } else {
        Ok(())
    }
}

/// The ledger after `claim_cert`: unchanged on error; on success one
/// appended credential token — single unit minted, mint authority
/// revoked, symbol fixed — and the commitment's claimed counter raised by
/// one.
pub open spec fn claim_cert_next(
    s: LedgerV,
    provider: u64,
    course: u64,
    claimer: Seq<u8>,
    siblings: Seq<Seq<u8>>,
    name: Seq<char>,
    uri: Seq<char>,
) -> LedgerV {
    if claim_cert_outcome(s, provider, course, claimer, siblings) is Ok {
        let k = s.commitment_index(provider, course);
        LedgerV {
            commitments: s.commitments.update(
                k,
                CertProofV { claimed: (s.commitments[k].claimed + 1) as u64, ..s.commitments[k] },
            ),
            credentials: s.credentials.push(
                TokenRecordV {
                    provider,
                    course,
                    holder: claimer,
                    supply: 1,
                    mint_authority: MintAuthority::Revoked,
                    name,
                    symbol: "APECERT"@,
                    uri,
                },
            ),
            ..s
        }
    } else {
        s
    }
}

/// `claim_cert` preserves well-formedness.
pub proof fn lemma_claim_cert_preserves_wf(
    s: LedgerV,
    provider: u64,
    course: u64,
    claimer: Seq<u8>,
    siblings: Seq<Seq<u8>>,
    name: Seq<char>,
    uri: Seq<char>,
)
    requires
        s.wf(),
        s.credentials.len() < u64::MAX,
    ensures
        claim_cert_next(s, provider, course, claimer, siblings, name, uri).wf(),
{
    if claim_cert_outcome(s, provider, course, claimer, siblings) is Ok {
        let s2 = claim_cert_next(s, provider, course, claimer, siblings, name, uri);
        let k = s.commitment_index(provider, course);
        assert(0 <= k < s.commitments.len() && s.commitments[k].provider == provider
            && s.commitments[k].course == course);
        let t = TokenRecordV {
            provider,
            course,
            holder: claimer,
            supply: 1,
            mint_authority: MintAuthority::Revoked,
            name,
            symbol: "APECERT"@,
            uri,
        };
        assert(s2.credentials == s.credentials.push(t));
        assert forall|i: int, j: int|
            #![trigger s2.credentials[i], s2.credentials[j]]
            0 <= i < j < s2.credentials.len() implies !(s2.credentials[i].provider
                == s2.credentials[j].provider && s2.credentials[i].course
                == s2.credentials[j].course && s2.credentials[i].holder
                == s2.credentials[j].holder) by {
            assert(s2.credentials[i] == s.credentials[i]);
            if j < s.credentials.len() {
                assert(s2.credentials[j] == s.credentials[j]);
            } else {
                if s.credentials[i].provider == provider && s.credentials[i].course == course
                    && s.credentials[i].holder == claimer {
                    assert(s.has_credential(provider, course, claimer));
                }
            }
        }
        assert forall|i: int, j: int|
            #![trigger s2.commitments[i], s2.commitments[j]]
            0 <= i < j < s2.commitments.len() implies !(s2.commitments[i].provider
                == s2.commitments[j].provider && s2.commitments[i].course
                == s2.commitments[j].course) by {
            assert(s2.commitments[i].provider == s.commitments[i].provider);
            assert(s2.commitments[i].course == s.commitments[i].course);
            assert(s2.commitments[j].provider == s.commitments[j].provider);
            assert(s2.commitments[j].course == s.commitments[j].course);
        }
        assert(s2.keys_unique());
        assert forall|j: int| 0 <= j < s2.courses.len() implies s2.has_provider(
            #[trigger] s2.courses[j].provider,
        ) by {
            let w = choose|w: int|
                0 <= w < s.providers.len() && s.providers[w].id == s.courses[j].provider;
            assert(s2.providers[w] == s.providers[w]);
        }
        assert forall|j: int|
            #![trigger s2.commitments[j]]
            0 <= j < s2.commitments.len() implies s2.has_course(
                s2.commitments[j].provider,
                s2.commitments[j].course,
            ) by {
            assert(s2.commitments[j].provider == s.commitments[j].provider);
            assert(s2.commitments[j].course == s.commitments[j].course);
            let w = choose|w: int|
                0 <= w < s.courses.len() && s.courses[w].provider == s.commitments[j].provider
                    && s.courses[w].id == s.commitments[j].course;
            assert(s2.courses[w] == s.courses[w]);
        }
        assert forall|j: int|
            #![trigger s2.credentials[j]]
            0 <= j < s2.credentials.len() implies s2.has_commitment(
                s2.credentials[j].provider,
                s2.credentials[j].course,
            ) by {
            if j < s.credentials.len() {
                assert(s2.credentials[j] == s.credentials[j]);
                let w = choose|w: int|
                    0 <= w < s.commitments.len() && s.commitments[w].provider
                        == s.credentials[j].provider && s.commitments[w].course
                        == s.credentials[j].course;
                assert(s2.commitments[w].provider == s.commitments[w].provider);
                assert(s2.commitments[w].course == s.commitments[w].course);
            } else {
                assert(s2.credentials[j] == t);
                assert(s2.commitments[k].provider == provider);
                assert(s2.commitments[k].course == course);
            }
        }
        assert forall|j: int|
            #![trigger s2.enrollments[j]]
            0 <= j < s2.enrollments.len() implies s2.has_course(
                s2.enrollments[j].provider,
                s2.enrollments[j].course,
            ) by {
            let w = choose|w: int|
                0 <= w < s.courses.len() && s.courses[w].provider == s.enrollments[j].provider
                    && s.courses[w].id == s.enrollments[j].course;
            assert(s2.courses[w] == s.courses[w]);
        }
        assert(s2.refs_exist());
        assert(s2.tokens_final());
        assert(s2.names_bounded());
        assert forall|j: int|
            #![trigger s2.commitments[j]]
            0 <= j < s2.commitments.len() implies s2.commitments[j].claimed == count_for_pair(
                s2.credentials,
                s2.commitments[j].provider,
                s2.commitments[j].course,
            ) by {
            lemma_count_for_pair_push(
                s.credentials,
                t,
                s.commitments[j].provider,
                s.commitments[j].course,
            );
            if j == k {
                lemma_count_for_pair_le_len(s.credentials, provider, course);
                assert(s.commitments[k].claimed == count_for_pair(s.credentials, provider, course));
                assert(s2.commitments[k].claimed == s.commitments[k].claimed + 1);
            } else {
                assert(s2.commitments[j] == s.commitments[j]);
                assert(!(s.commitments[j].provider == provider && s.commitments[j].course
                    == course));
            }
        }
        assert(s2.claimed_accurate());
    }
}
pub proof fn lemma_count_for_triple_zero(
    tokens: Seq<TokenRecordV>,
    provider: u64,
    course: u64,
    holder: Seq<u8>,
)
    requires
        forall|j: int|
            #![trigger tokens[j]]
            0 <= j < tokens.len() ==> !(tokens[j].provider == provider && tokens[j].course == course
                && tokens[j].holder == holder),
    ensures
        count_for_triple(tokens, provider, course, holder) == 0,
    decreases tokens.len(),
{
    if tokens.len() > 0 {
        assert(tokens.last() == tokens[tokens.len() - 1]);
        assert(forall|j: int|
            #![trigger tokens.drop_last()[j]]
            0 <= j < tokens.drop_last().len() ==> tokens.drop_last()[j] == tokens[j]);
        lemma_count_for_triple_zero(tokens.drop_last(), provider, course, holder);
    }
}

/// At-most-one issuance: once a claim for a (provider, course, recipient)
/// triple has succeeded, any further claim for the same triple — with any
/// proof, valid or not — fails with `AlreadyInitialized`, and the ledger
/// holds exactly one credential for the triple, carrying one minted unit
/// and a revoked mint authority.
pub proof fn lemma_at_most_one_issuance(
    s: LedgerV,
    provider: u64,
    course: u64,
    claimer: Seq<u8>,
    siblings1: Seq<Seq<u8>>,
    name1: Seq<char>,
    uri1: Seq<char>,
    siblings2: Seq<Seq<u8>>,
)
    requires
        s.wf(),
        claim_cert_outcome(s, provider, course, claimer, siblings1) is Ok,
    ensures
        ({
            let s1 = claim_cert_next(s, provider, course, claimer, siblings1, name1, uri1);
            &&& claim_cert_outcome(s1, provider, course, claimer, siblings2) == Err::<
                (),
                ApecErrorCode,
            >(ApecErrorCode::AlreadyInitialized)
            &&& count_for_triple(s1.credentials, provider, course, claimer) == 1
            &&& forall|j: int|
                #![trigger s1.credentials[j]]
                0 <= j < s1.credentials.len() && s1.credentials[j].provider == provider
                    && s1.credentials[j].course == course && s1.credentials[j].holder == claimer
                    ==> s1.credentials[j].supply == 1 && s1.credentials[j].mint_authority
                    is Revoked
        }),
{
    let s1 = claim_cert_next(s, provider, course, claimer, siblings1, name1, uri1);
    let k = s.commitment_index(provider, course);
    let t = TokenRecordV {
        provider,
        course,
        holder: claimer,
        supply: 1,
        mint_authority: MintAuthority::Revoked,
        name: name1,
        symbol: "APECERT"@,
        uri: uri1,
    };
    assert(s1.credentials == s.credentials.push(t));
    let wp = choose|w: int| 0 <= w < s.providers.len() && s.providers[w].id == provider;
    assert(s1.providers[wp].id == provider);
    assert(s1.has_provider(provider));
    let wc = choose|w: int|
        0 <= w < s.courses.len() && s.courses[w].provider == provider && s.courses[w].id == course;
    assert(s1.courses[wc].provider == provider && s1.courses[wc].id == course);
    assert(s1.has_course(provider, course));
    assert(0 <= k < s.commitments.len() && s.commitments[k].provider == provider
        && s.commitments[k].course == course);
    assert(s1.commitments[k].provider == provider && s1.commitments[k].course == course);
    assert(s1.has_commitment(provider, course));
    let last = s.credentials.len() as int;
    assert(s1.credentials[last] == t);
    assert(s1.has_credential(provider, course, claimer));
    assert(claim_cert_outcome(s1, provider, course, claimer, siblings2) == Err::<
        (),
        ApecErrorCode,
    >(ApecErrorCode::AlreadyInitialized));
    assert forall|j: int|
        #![trigger s.credentials[j]]
        0 <= j < s.credentials.len() implies !(s.credentials[j].provider == provider
            && s.credentials[j].course == course && s.credentials[j].holder == claimer) by {
        if s.credentials[j].provider == provider && s.credentials[j].course == course
            && s.credentials[j].holder == claimer {
            assert(s.has_credential(provider, course, claimer));
        }
    }
    lemma_count_for_triple_zero(s.credentials, provider, course, claimer);
    lemma_count_for_triple_push(s.credentials, t, provider, course, claimer);
    assert forall|j: int|
        #![trigger s1.credentials[j]]
        0 <= j < s1.credentials.len() && s1.credentials[j].provider == provider
            && s1.credentials[j].course == course && s1.credentials[j].holder == claimer implies
        s1.credentials[j].supply == 1 && s1.credentials[j].mint_authority is Revoked by {
        if j < s.credentials.len() {
            assert(s1.credentials[j] == s.credentials[j]);
        } else {
            assert(s1.credentials[j] == t);
        }
    }
}

/// Enrollment issuance carries the same one-shot guarantee: once an
/// enrollment for a (course, participant) pair has been minted, a second
/// enrollment for the same pair fails with `AlreadyInitialized`, and the
/// ledger holds exactly one enrollment token for the pair.
pub proof fn lemma_at_most_one_enrollment(
    s: LedgerV,
    provider: u64,
    course: u64,
    participant: Seq<u8>,
    name1: Seq<char>,
    symbol1: Seq<char>,
    uri1: Seq<char>,
)
    requires
        s.wf(),
        enroll_course_outcome(s, provider, course, participant) is Ok,
    ensures
        ({
            let s1 = enroll_course_next(s, provider, course, participant, name1, symbol1, uri1);
            &&& enroll_course_outcome(s1, provider, course, participant) == Err::<
                (),
                ApecErrorCode,
            >(ApecErrorCode::AlreadyInitialized)
            &&& count_for_triple(s1.enrollments, provider, course, participant) == 1
        }),
{
    let s1 = enroll_course_next(s, provider, course, participant, name1, symbol1, uri1);
    let t = TokenRecordV {
        provider,
        course,
        holder: participant,
        supply: 1,
        mint_authority: MintAuthority::Revoked,
        name: name1,
        symbol: symbol1,
        uri: uri1,
    };
    assert(s1.enrollments == s.enrollments.push(t));
    let wc = choose|w: int|
        0 <= w < s.courses.len() && s.courses[w].provider == provider && s.courses[w].id == course;
    assert(s1.courses[wc].provider == provider && s1.courses[wc].id == course);
    assert(s1.has_course(provider, course));
    let last = s.enrollments.len() as int;
    assert(s1.enrollments[last] == t);
    assert(s1.has_enrollment(provider, course, participant));
    assert forall|j: int|
        #![trigger s.enrollments[j]]
        0 <= j < s.enrollments.len() implies !(s.enrollments[j].provider == provider
            && s.enrollments[j].course == course && s.enrollments[j].holder == participant) by {
        if s.enrollments[j].provider == provider && s.enrollments[j].course == course
            && s.enrollments[j].holder == participant {
            assert(s.has_enrollment(provider, course, participant));
        }
    }
    lemma_count_for_triple_zero(s.enrollments, provider, course, participant);
    lemma_count_for_triple_push(s.enrollments, t, provider, course, participant);
}

impl Ledger {
    /// The empty ledger.
    pub fn new() -> (s: Ledger)
        ensures
            s@.wf(),
            s@.providers.len() == 0,
            s@.courses.len() == 0,
            s@.commitments.len() == 0,
            s@.credentials.len() == 0,
            s@.enrollments.len() == 0,
    {
        Ledger {
            providers: Vec::new(),
            courses: Vec::new(),
            commitments: Vec::new(),
            credentials: Vec::new(),
            enrollments: Vec::new(),
        }
    }

    /// Looks up the provider with this id.
    fn find_provider(&self, provider: u64) -> (r: Option<usize>)
        ensures
            match r {
                Some(j) => j < self@.providers.len() && self@.providers[j as int].id == provider,
                None => !self@.has_provider(provider),
            },
    {
        let mut i: usize = 0;
        while i < self.providers.len()
            invariant
                i <= self.providers@.len(),
                forall|k: int| 0 <= k < i ==> (#[trigger] self@.providers[k]).id != provider,
            decreases self.providers@.len() - i,
        {
            if self.providers[i].id == provider {
                return Some(i);
            }
            i = i + 1;
        }
        None
    }

    /// Looks up the course with this id under this provider.
    fn find_course(&self, provider: u64, course: u64) -> (r: Option<usize>)
        ensures
            match r {
                Some(j) => j < self@.courses.len() && self@.courses[j as int].provider == provider
                    && self@.courses[j as int].id == course,
                None => !self@.has_course(provider, course),
            },
    {
        let mut i: usize = 0;
        while i < self.courses.len()
            invariant
                i <= self.courses@.len(),
                forall|k: int|
                    0 <= k < i ==> !((#[trigger] self@.courses[k]).provider == provider
                        && self@.courses[k].id == course),
            decreases self.courses@.len() - i,
        {
            if self.courses[i].provider == provider && self.courses[i].id == course {
                return Some(i);
            }
            i = i + 1;
        }
        None
    }

    /// Looks up the commitment for this (provider, course) pair.
    fn find_commitment(&self, provider: u64, course: u64) -> (r: Option<usize>)
        ensures
            match r {
                Some(j) => j < self@.commitments.len() && self@.commitments[j as int].provider
                    == provider && self@.commitments[j as int].course == course,
                None => !self@.has_commitment(provider, course),
            },
    {
        let mut i: usize = 0;
        while i < self.commitments.len()
            invariant
                i <= self.commitments@.len(),
                forall|k: int|
                    0 <= k < i ==> !((#[trigger] self@.commitments[k]).provider == provider
                        && self@.commitments[k].course == course),
            decreases self.commitments@.len() - i,
        {
            if self.commitments[i].provider == provider && self.commitments[i].course == course {
                return Some(i);
            }
            i = i + 1;
        }
        None
    }

    /// Looks up the credential bound to this (provider, course,
    /// recipient) triple.
    fn find_credential(&self, provider: u64, course: u64, recipient: &[u8; 32]) -> (r: Option<
        usize,
    >)
        ensures
            match r {
                Some(j) => j < self@.credentials.len() && self@.credentials[j as int].provider
                    == provider && self@.credentials[j as int].course == course
                    && self@.credentials[j as int].holder == recipient@,
                None => !self@.has_credential(provider, course, recipient@),
            },
    {
        let mut i: usize = 0;
        while i < self.credentials.len()
            invariant
                i <= self.credentials@.len(),
                forall|k: int|
                    0 <= k < i ==> !((#[trigger] self@.credentials[k]).provider == provider
                        && self@.credentials[k].course == course && self@.credentials[k].holder
                        == recipient@),
            decreases self.credentials@.len() - i,
        {
            if self.credentials[i].provider == provider && self.credentials[i].course == course
                && crate::hash::bytes32_eq(&self.credentials[i].holder, recipient) {
                return Some(i);
            }
            i = i + 1;
        }
        None
    }

    /// Looks up the enrollment bound to this (course, participant) pair.
    fn find_enrollment(&self, provider: u64, course: u64, participant: &[u8; 32]) -> (r: Option<
        usize,
    >)
        ensures
            match r {
                Some(j) => j < self@.enrollments.len() && self@.enrollments[j as int].provider
                    == provider && self@.enrollments[j as int].course == course
                    && self@.enrollments[j as int].holder == participant@,
                None => !self@.has_enrollment(provider, course, participant@),
            },
    {
        let mut i: usize = 0;
        while i < self.enrollments.len()
            invariant
                i <= self.enrollments@.len(),
                forall|k: int|
                    0 <= k < i ==> !((#[trigger] self@.enrollments[k]).provider == provider
                        && self@.enrollments[k].course == course && self@.enrollments[k].holder
                        == participant@),
            decreases self.enrollments@.len() - i,
        {
            if self.enrollments[i].provider == provider && self.enrollments[i].course == course
                && crate::hash::bytes32_eq(&self.enrollments[i].holder, participant) {
                return Some(i);
            }
            i = i + 1;
        }
        None
    }

    /// Creates a provider record. Fails if the name exceeds its limit or
    /// if a provider with this id already exists; any error leaves the
    /// ledger unchanged.
    pub fn init_provider(&mut self, id: u64, authority: [u8; 32], short_name: String) -> (r:
        Result<(), ApecErrorCode>)
        requires
            old(self)@.wf(),
        ensures
            final(self)@.wf(),
            r == init_provider_outcome(old(self)@, id, authority@, short_name@),
            final(self)@ == init_provider_next(old(self)@, id, authority@, short_name@),
    {
        proof {
            lemma_init_provider_preserves_wf(old(self)@, id, authority@, short_name@);
        }
        if short_name.as_str().unicode_len() > MAX_PROVIDER_NAME_LEN {
            return Err(ApecErrorCode::NameTooLong);
        }
        if self.find_provider(id).is_some() {
            return Err(ApecErrorCode::AlreadyInitialized);
        }
        self.providers.push(Provider { id, authority, short_name });
        proof {
            let pv = ProviderV { id, authority: authority@, short_name: short_name@ };
            assert(self@.providers =~= old(self)@.providers.push(pv));
            assert(self@ =~= init_provider_next(old(self)@, id, authority@, short_name@));
        }
        Ok(())
    }

    /// Creates a course under an existing provider. Requires the caller
    /// to be the provider's recorded authority; fails on a missing
    /// provider, a wrong authority, an oversized name or an id collision,
    /// and any error leaves the ledger unchanged.
    pub fn create_course(
        &mut self,
        provider: u64,
        authority: [u8; 32],
        id: u64,
        short_name: String,
    ) -> (r: Result<(), ApecErrorCode>)
        requires
            old(self)@.wf(),
        ensures
            final(self)@.wf(),
            r == create_course_outcome(old(self)@, provider, authority@, id, short_name@),
            final(self)@ == create_course_next(old(self)@, provider, authority@, id, short_name@),
    {
        proof {
            lemma_create_course_preserves_wf(old(self)@, provider, authority@, id, short_name@);
        }
        let p = match self.find_provider(provider) {
            None => {
                return Err(ApecErrorCode::NotFound);
            },
            Some(j) => j,
        };
        proof {
            lemma_provider_at_is(old(self)@, p as int, provider);
        }
        if !crate::hash::bytes32_eq(&self.providers[p].authority, &authority) {
            return Err(ApecErrorCode::Unauthorized);
        }
        if short_name.as_str().unicode_len() > MAX_COURSE_NAME_LEN {
            return Err(ApecErrorCode::NameTooLong);
        }
        if self.find_course(provider, id).is_some() {
            return Err(ApecErrorCode::AlreadyInitialized);
        }
        self.courses.push(Course { id, provider, short_name });
        proof {
            let cv = CourseV { id, provider, short_name: short_name@ };
            assert(self@.courses =~= old(self)@.courses.push(cv));
            assert(self@ =~= create_course_next(old(self)@, provider, authority@, id, short_name@));
        }
        Ok(())
    }

    /// Publishes the eligibility commitment for one course's
    /// certificates: a Merkle root over the allow-list and the expected
    /// total. The (provider, course) pair must exist; exactly one
    /// commitment may ever exist per pair; any caller may publish. Any
    /// error leaves the ledger unchanged.
    pub fn create_cert_proof(&mut self, provider: u64, course: u64, root: [u8; 32], total: u64) -> (
        r: Result<(), ApecErrorCode>)
        requires
            old(self)@.wf(),
        ensures
            final(self)@.wf(),
            r == create_cert_proof_outcome(old(self)@, provider, course, root@, total),
            final(self)@ == create_cert_proof_next(old(self)@, provider, course, root@, total),
    {
        proof {
            lemma_create_cert_proof_preserves_wf(old(self)@, provider, course, root@, total);
        }
        if self.find_provider(provider).is_none() {
            return Err(ApecErrorCode::NotFound);
        }
        if self.find_course(provider, course).is_none() {
            return Err(ApecErrorCode::NotFound);
        }
        if self.find_commitment(provider, course).is_some() {
            return Err(ApecErrorCode::AlreadyInitialized);
        }
        self.commitments.push(CertProof { provider, course, root, total, claimed: 0 });
        proof {
            let cv = CertProofV { provider, course, root: root@, total, claimed: 0 };
            assert(self@.commitments =~= old(self)@.commitments.push(cv));
            assert(self@ =~= create_cert_proof_next(old(self)@, provider, course, root@, total));
        }
        Ok(())
    }

    /// Mints an enrollment token for a participant of an existing
    /// course: one unit, into a slot derived from (course, participant),
    /// with the mint authority revoked in the same operation. Open to
    /// anyone; at most one enrollment per (course, participant). Any
    /// error leaves the ledger unchanged.
    pub fn enroll_course(
        &mut self,
        provider: u64,
        course: u64,
        participant: [u8; 32],
        name: String,
        symbol: String,
        uri: String,
    ) -> (r: Result<(), ApecErrorCode>)
        requires
            old(self)@.wf(),
        ensures
            final(self)@.wf(),
            r == enroll_course_outcome(old(self)@, provider, course, participant@),
            final(self)@ == enroll_course_next(
                old(self)@,
                provider,
                course,
                participant@,
                name@,
                symbol@,
                uri@,
            ),
    {
        proof {
            lemma_enroll_course_preserves_wf(
                old(self)@,
                provider,
                course,
                participant@,
                name@,
                symbol@,
                uri@,
            );
        }
        if self.find_course(provider, course).is_none() {
            return Err(ApecErrorCode::NotFound);
        }
        if self.find_enrollment(provider, course, &participant).is_some() {
            return Err(ApecErrorCode::AlreadyInitialized);
        }
        let mut token = TokenRecord::create(provider, course, participant, course, name, symbol, uri);
        token.mint_one();
        token.revoke_mint_authority();
        self.enrollments.push(token);
        proof {
            let tv = TokenRecordV {
                provider,
                course,
                holder: participant@,
                supply: 1,
                mint_authority: MintAuthority::Revoked,
                name: name@,
                symbol: symbol@,
                uri: uri@,
            };
            assert(self@.enrollments =~= old(self)@.enrollments.push(tv));
            assert(self@ =~= enroll_course_next(
                old(self)@,
                provider,
                course,
                participant@,
                name@,
                symbol@,
                uri@,
            ));
        }
        Ok(())
    }

    /// Claims a certificate: hashes the claimer's identity into a leaf,
    /// checks the Merkle proof against the published commitment, and on
    /// success mints exactly one credential token into a slot derived
    /// from (provider, course, claimer) — with the symbol fixed and the
    /// mint authority revoked in the same atomic step — and raises the
    /// commitment's claimed counter. Any error leaves the ledger
    /// unchanged.
    pub fn claim_cert(
        &mut self,
        provider: u64,
        course: u64,
        claimer: [u8; 32],
        siblings: Vec<[u8; 32]>,
        name: String,
        uri: String,
    ) -> (r: Result<(), ApecErrorCode>)
        requires
            old(self)@.wf(),
            old(self)@.credentials.len() < u64::MAX,
        ensures
            final(self)@.wf(),
            r == claim_cert_outcome(
                old(self)@,
                provider,
                course,
                claimer@,
                crate::merkle::proof_views(siblings@),
            ),
            final(self)@ == claim_cert_next(
                old(self)@,
                provider,
                course,
                claimer@,
                crate::merkle::proof_views(siblings@),
                name@,
                uri@,
            ),
    {
        proof {
            lemma_claim_cert_preserves_wf(
                old(self)@,
                provider,
                course,
                claimer@,
                crate::merkle::proof_views(siblings@),
                name@,
                uri@,
            );
        }
        if self.find_provider(provider).is_none() {
            return Err(ApecErrorCode::NotFound);
        }
        if self.find_course(provider, course).is_none() {
            return Err(ApecErrorCode::NotFound);
        }
        let k = match self.find_commitment(provider, course) {
            None => {
                return Err(ApecErrorCode::NotFound);
            },
            Some(k) => k,
        };
        proof {
            lemma_commitment_index_is(old(self)@, k as int, provider, course);
        }
        if self.find_credential(provider, course, &claimer).is_some() {
            return Err(ApecErrorCode::AlreadyInitialized);
        }
        let leaf = crate::hash::hash_leaf(&claimer);
        let root = self.commitments[k].root;
        if !crate::merkle::merkle_verify(siblings, root, leaf) {
            return Err(ApecErrorCode::InvalidProof);
        }
        let symbol = "APECERT".to_string();
        let mut token = TokenRecord::create(provider, course, claimer, provider, name, symbol, uri);
        token.mint_one();
        token.revoke_mint_authority();
        self.credentials.push(token);
        proof {
            lemma_count_for_pair_le_len(old(self)@.credentials, provider, course);
            assert(old(self)@.commitments[k as int].claimed < u64::MAX);
        }
        let c = self.commitments[k];
        self.commitments.set(k, CertProof { claimed: c.claimed + 1, ..c });
        proof {
            let s = old(self)@;
            let tv = TokenRecordV {
                provider,
                course,
                holder: claimer@,
                supply: 1,
                mint_authority: MintAuthority::Revoked,
                name: name@,
                symbol: "APECERT"@,
                uri: uri@,
            };
            let cv = CertProofV {
                claimed: (s.commitments[k as int].claimed + 1) as u64,
                ..s.commitments[k as int]
            };
            assert(self@.credentials =~= s.credentials.push(tv));
            assert(self@.commitments =~= s.commitments.update(k as int, cv));
            assert(self@ =~= claim_cert_next(
                s,
                provider,
                course,
                claimer@,
                crate::merkle::proof_views(siblings@),
                name@,
                uri@,
            ));
        }
        Ok(())
    }
}

} // verus!
