use vstd::prelude::*;
use vstd::string::StringSliceAdditionalSpecFns;

verus! {

/// The unsigned number whose little-endian bytes are `s`.
pub open spec fn le_value(s: Seq<u8>) -> nat
    decreases s.len(),
{
    if s.len() == 0 {
        0
    } else {
        s[0] as nat + 256 * le_value(s.drop_first())
    }
}

/// 256 to the power `k`.
pub open spec fn radix_pow(k: nat) -> nat
    decreases k,
{
    if k == 0 {
        1
    } else {
        256 * radix_pow((k - 1) as nat)
    }
}

proof fn lemma_radix_pow_mono(a: nat, b: nat)
    requires
        a <= b,
    ensures
        radix_pow(a) <= radix_pow(b),
    decreases b,
{
    if a < b {
        lemma_radix_pow_mono(a, (b - 1) as nat);
    }
}

/// Reads the first `n` bytes of `b` as a little-endian number.
fn read_le(b: &[u8], n: usize) -> (r: u128)
    requires
        n <= 16,
        n <= b@.len(),
    ensures
        r as nat == le_value(b@.take(n as int)),
{
    proof {
        reveal_with_fuel(radix_pow, 17);
    }
    let mut acc: u128 = 0;
    let mut i: usize = n;
    assert(b@.subrange(n as int, n as int) =~= Seq::<u8>::empty());
    while i > 0
        invariant
            i <= n <= 16,
            n <= b@.len(),
            acc as nat == le_value(b@.subrange(i as int, n as int)),
            acc < radix_pow((n - i) as nat),
            radix_pow(16) == 256 * radix_pow(15),
            radix_pow(16) == 0x1_0000_0000_0000_0000_0000_0000_0000_0000int,
        decreases i,
    {
        i = i - 1;
        let ghost p = radix_pow((n - i - 1) as nat);
        proof {
            assert(b@.subrange(i as int, n as int).drop_first() =~= b@.subrange(i as int + 1, n as int));
            lemma_radix_pow_mono((n - i - 1) as nat, 15);
        }
        let x = b[i] as u128;
        assert(acc as int * 256 + x < 256 * p) by (nonlinear_arith)
            requires
                acc < p,
                x < 256,
        ;
        acc = acc * 256 + x;
    }
    assert(b@.subrange(0, n as int) =~= b@.take(n as int));
    acc
}

/// Client side of the artists chain extension: decodes what the runtime
/// answers to each query.
pub struct ArtistExtension;

impl ArtistExtension {
    /// The deposit asked to become a candidate, from the runtime's answer to
    /// the creation-deposit query (a 16-byte little-endian amount); `None`
    /// when the answer is too short.
    pub fn creation_deposit_amount(output: &[u8]) -> (r: Option<u128>)
        ensures
            match r {
                Some(v) => output@.len() >= 16 && v as nat == le_value(output@.take(16)),
                None => output@.len() < 16,
            },
    {
        if output.len() < 16 {
            return None;
        }
        Some(read_le(output, 16))
    }

    /// The longest name allowed, from the runtime's answer to the name-length
    /// query (a 4-byte little-endian number); `None` when the answer is too
    /// short.
    pub fn name_max_length(output: &[u8]) -> (r: Option<u32>)
        ensures
            match r {
                Some(v) => output@.len() >= 4 && v as nat == le_value(output@.take(4)),
                None => output@.len() < 4,
            },
    {
        if output.len() < 4 {
            return None;
        }
        let v = read_le(output, 4);
        proof {
            reveal_with_fuel(le_value, 5);
            assert(output@.take(4).drop_first() =~= output@.subrange(1, 4));
            assert(output@.subrange(1, 4).drop_first() =~= output@.subrange(2, 4));
            assert(output@.subrange(2, 4).drop_first() =~= output@.subrange(3, 4));
            assert(output@.subrange(3, 4).drop_first() =~= Seq::<u8>::empty());
        }
        Some(v as u32)
    }
}

/// Queries of the artists chain extension.
#[derive(Clone, Copy, Debug, PartialEq, Eq)]
pub enum ArtistsFunc {
    CreationDepositAmount,
    NameMaxLength,
    Artists,
    Candidates,
}

impl ArtistsFunc {
    /// The query with function id `id` (1, 2, 51 or 52), or `None` for an
    /// unknown id.
    pub fn from_func_id(id: u16) -> (r: Option<ArtistsFunc>)
        ensures
            r == match id {
                1 => Some(ArtistsFunc::CreationDepositAmount),
                2 => Some(ArtistsFunc::NameMaxLength),
                51 => Some(ArtistsFunc::Artists),
                52 => Some(ArtistsFunc::Candidates),
                _ => None::<ArtistsFunc>,
            },
    {
        match id {
            1 => Some(ArtistsFunc::CreationDepositAmount),
            2 => Some(ArtistsFunc::NameMaxLength),
            51 => Some(ArtistsFunc::Artists),
            52 => Some(ArtistsFunc::Candidates),
            _ => None,
        }
    }
}

/// Status of an artists chain-extension call.
#[derive(Clone, Copy, Debug, PartialEq, Eq)]
pub enum ArtistsError {
    /// Success.
    Success,
    /// The caller doesn't have enough funds for the deposit.
    NotEnoughFunds,
    /// The given name is longer than the allowed length.
    NameTooLong,
    /// The account is already in the candidate list.
    AlreadyACandidate,
    /// The wanted candidate is not in the candidate list.
    CandidateNotFound,
    /// The caller isn't in the candidate list.
    NotACandidate,
    /// This account already is a certified artist account.
    AlreadyAnArtist,
    /// The caller isn't a verified artist.
    NotAnArtist,
    /// The wanted artist is not in the artist list.
    ArtistNotFound,
    /// Unknown error.
    UnknownError,
}

/// The bytes of `s` equal those of `lit`.
fn text_is(s: &str, lit: &str) -> (r: bool)
    ensures
        r == (s.spec_bytes() == lit.spec_bytes()),
{
    let a = s.as_bytes();
    let b = lit.as_bytes();
    if a.len() != b.len() {
        return false;
    }
    let mut i: usize = 0;
    while i < a.len()
        invariant
            a@ == s.spec_bytes(),
            b@ == lit.spec_bytes(),
            a@.len() == b@.len(),
            0 <= i <= a@.len(),
            forall|j: int| 0 <= j < i ==> a@[j] == b@[j],
        decreases a@.len() - i,
    {
        if a[i] != b[i] {
            return false;
        }
        i = i + 1;
    }
    assert(a@ =~= b@);
    true
}

/// The error whose name has the bytes `b`, or `UnknownError`.
pub open spec fn error_named(b: Seq<u8>) -> ArtistsError {
    if b == "NotEnoughFunds".spec_bytes() {
        ArtistsError::NotEnoughFunds
    } else if b == "NameTooLong".spec_bytes() {
        ArtistsError::NameTooLong
    } else if b == "AlreadyACandidate".spec_bytes() {
        ArtistsError::AlreadyACandidate
    } else if b == "CandidateNotFound".spec_bytes() {
        ArtistsError::CandidateNotFound
    } else if b == "NotACandidate".spec_bytes() {
        ArtistsError::NotACandidate
    } else if b == "AlreadyAnArtist".spec_bytes() {
        ArtistsError::AlreadyAnArtist
    } else if b == "NotAnArtist".spec_bytes() {
        ArtistsError::NotAnArtist
    } else if b == "ArtistNotFound".spec_bytes() {
        ArtistsError::ArtistNotFound
    } else {
        ArtistsError::UnknownError
    }
}

impl ArtistsError {
    /// The status code sent back to the contract.
    pub fn code(&self) -> (r: u32)
        ensures
            r == match self {
                ArtistsError::Success => 0u32,
                ArtistsError::NotEnoughFunds => 1,
                ArtistsError::NameTooLong => 2,
                ArtistsError::AlreadyACandidate => 3,
                ArtistsError::CandidateNotFound => 4,
                ArtistsError::NotACandidate => 5,
                ArtistsError::AlreadyAnArtist => 6,
                ArtistsError::NotAnArtist => 7,
                ArtistsError::ArtistNotFound => 8,
                ArtistsError::UnknownError => 99,
            },
    {
        match self {
            ArtistsError::Success => 0,
            ArtistsError::NotEnoughFunds => 1,
            ArtistsError::NameTooLong => 2,
            ArtistsError::AlreadyACandidate => 3,
            ArtistsError::CandidateNotFound => 4,
            ArtistsError::NotACandidate => 5,
            ArtistsError::AlreadyAnArtist => 6,
            ArtistsError::NotAnArtist => 7,
            ArtistsError::ArtistNotFound => 8,
            ArtistsError::UnknownError => 99,
        }
    }

    /// The error that a module error of the artists pallet names by its
    /// `message`; `UnknownError` for any other message or none.
    pub fn from_module_message(message: Option<&str>) -> (r: ArtistsError)
        ensures
            r == match message {
                Some(m) => error_named(m.spec_bytes()),
                None => ArtistsError::UnknownError,
            },
    {
        match message {
            None => ArtistsError::UnknownError,
            Some(m) => {
                if text_is(m, "NotEnoughFunds") {
                    ArtistsError::NotEnoughFunds
                } else if text_is(m, "NameTooLong") {
                    ArtistsError::NameTooLong
                } else if text_is(m, "AlreadyACandidate") {
                    ArtistsError::AlreadyACandidate
                } else if text_is(m, "CandidateNotFound") {
                    ArtistsError::CandidateNotFound
                } else if text_is(m, "NotACandidate") {
                    ArtistsError::NotACandidate
                } else if text_is(m, "AlreadyAnArtist") {
                    ArtistsError::AlreadyAnArtist
                } else if text_is(m, "NotAnArtist") {
                    ArtistsError::NotAnArtist
                } else if text_is(m, "ArtistNotFound") {
                    ArtistsError::ArtistNotFound
                } else {
                    ArtistsError::UnknownError
                }
            },
        }
    }
}

} // verus!
