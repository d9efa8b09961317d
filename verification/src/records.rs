//! The records that the ledger stores — providers, courses, published
//! commitments, and issued tokens — with their mathematical views.

use vstd::prelude::*;

verus! {

/// A provider's display name holds at most this many characters.
pub const MAX_PROVIDER_NAME_LEN: usize = 10;

/// A course's display name holds at most this many characters.
pub const MAX_COURSE_NAME_LEN: usize = 20;

/// Why an operation was refused. Every error aborts the whole operation
/// and leaves the ledger unchanged.
#[derive(Clone, Copy, Debug, PartialEq, Eq, Structural)]
pub enum ApecErrorCode {
    /// The caller is not the recorded authority for an operation that
    /// requires one.
    Unauthorized,
    /// The submitted Merkle proof does not connect the claimant's leaf to
    /// the published root.
    InvalidProof,
    /// The operation's target record already exists; records are created
    /// at most once and never rewritten.
    AlreadyInitialized,
    /// A record the operation refers to does not exist.
    NotFound,
    /// A display name exceeds its limit.
    NameTooLong,
}

/// An issuing organization. Created once; immutable thereafter.
pub struct Provider {
    pub id: u64,
    pub authority: [u8; 32],
    pub short_name: String,
}

/// The mathematical view of a [`Provider`].
#[verifier::ext_equal]
pub struct ProviderV {
    pub id: u64,
    pub authority: Seq<u8>,
    pub short_name: Seq<char>,
}

impl View for Provider {
    type V = ProviderV;

    open spec fn view(&self) -> ProviderV {
        ProviderV { id: self.id, authority: self.authority@, short_name: self.short_name@ }
    }
}

/// A course offered by a provider. Created once; immutable thereafter.
pub struct Course {
    pub id: u64,
    pub provider: u64,
    pub short_name: String,
}

/// The mathematical view of a [`Course`].
#[verifier::ext_equal]
pub struct CourseV {
    pub id: u64,
    pub provider: u64,
    pub short_name: Seq<char>,
}

impl View for Course {
    type V = CourseV;

    open spec fn view(&self) -> CourseV {
        CourseV { id: self.id, provider: self.provider, short_name: self.short_name@ }
    }
}

/// A published eligibility commitment for one course's certificates: a
/// Merkle root over the allow-list of recipients, the expected total, and
/// a counter of claims issued so far. Root and total are immutable once
/// set.
#[derive(Clone, Copy)]
pub struct CertProof {
    pub provider: u64,
    pub course: u64,
    pub root: [u8; 32],
    pub total: u64,
    pub claimed: u64,
}

/// The mathematical view of a [`CertProof`].
#[verifier::ext_equal]
pub struct CertProofV {
    pub provider: u64,
    pub course: u64,
    pub root: Seq<u8>,
    pub total: u64,
    pub claimed: u64,
}

impl View for CertProof {
    type V = CertProofV;

    open spec fn view(&self) -> CertProofV {
        CertProofV {
            provider: self.provider,
            course: self.course,
            root: self.root@,
            total: self.total,
            claimed: self.claimed,
        }
    }
}

/// The two-state mint-authority machine: a token is created mintable by
/// the entity whose id is recorded, and the authority is revoked — never
/// to return — in the same operation that performs the single mint.
#[derive(Clone, Copy, Debug, PartialEq, Eq, Structural)]
pub enum MintAuthority {
    Mintable(u64),
    Revoked,
}

/// A unit-supply token bound to one holder: either a credential, scoped
/// to (provider, course, recipient), or an enrollment, scoped to
/// (course, participant).
pub struct TokenRecord {
    pub provider: u64,
    pub course: u64,
    pub holder: [u8; 32],
    pub supply: u64,
    pub mint_authority: MintAuthority,
    pub name: String,
    pub symbol: String,
    pub uri: String,
}

/// The mathematical view of a [`TokenRecord`].
#[verifier::ext_equal]
pub struct TokenRecordV {
    pub provider: u64,
    pub course: u64,
    pub holder: Seq<u8>,
    pub supply: u64,
    pub mint_authority: MintAuthority,
    pub name: Seq<char>,
    pub symbol: Seq<char>,
    pub uri: Seq<char>,
}

impl View for TokenRecord {
    type V = TokenRecordV;

    open spec fn view(&self) -> TokenRecordV {
        TokenRecordV {
            provider: self.provider,
            course: self.course,
            holder: self.holder@,
            supply: self.supply,
            mint_authority: self.mint_authority,
            name: self.name@,
            symbol: self.symbol@,
            uri: self.uri@,
        }
    }
}

impl TokenRecord {
    /// A fresh, empty token: supply zero, mintable only by the issuing
    /// entity recorded in the authority.
    pub fn create(
        provider: u64,
        course: u64,
        holder: [u8; 32],
        issuer: u64,
        name: String,
        symbol: String,
        uri: String,
    ) -> (t: TokenRecord)
        ensures
            t@ == (TokenRecordV {
                provider,
                course,
                holder: holder@,
                supply: 0,
                mint_authority: MintAuthority::Mintable(issuer),
                name: name@,
                symbol: symbol@,
                uri: uri@,
            }),
    {
        TokenRecord {
            provider,
            course,
            holder,
            supply: 0,
            mint_authority: MintAuthority::Mintable(issuer),
            name,
            symbol,
            uri,
        }
    }

    /// Mints one unit. Only possible while the mint authority has not
    /// been revoked.
    pub fn mint_one(&mut self)
        requires
            old(self).mint_authority is Mintable,
            old(self).supply < u64::MAX,
        ensures
            final(self)@ == (TokenRecordV { supply: (old(self).supply + 1) as u64, ..old(self)@ }),
    {
        self.supply = self.supply + 1;
    }

    /// Irrevocably clears the mint authority: the token can never be
    /// minted again.
    pub fn revoke_mint_authority(&mut self)
        requires
            old(self).mint_authority is Mintable,
        ensures
            final(self)@ == (TokenRecordV { mint_authority: MintAuthority::Revoked, ..old(self)@ }),
    {
        self.mint_authority = MintAuthority::Revoked;
    }
}

} // verus!
