//! The commitment scheme: a 128-bit BLAKE2b digest of a secret byte followed
//! by the UTF-8 bytes of a salt.
use vstd::prelude::*;
use vstd::utf8::encode_utf8;

verus! {

/// What `sp_core::blake2_128` returns for the given input bytes.
pub uninterp spec fn blake2_128_of(data: Seq<u8>) -> Seq<u8>;

/// The bytes that are hashed to commit to `value` under `salt`: the one-byte
/// little-endian encoding of `value`, then the UTF-8 encoding of `salt`.
pub open spec fn commitment_input(value: u8, salt: Seq<char>) -> Seq<u8> {
    seq![value] + encode_utf8(salt)
}

/// The commitment to `value` under `salt`.
pub open spec fn commitment_of(value: u8, salt: Seq<char>) -> Seq<u8> {
    blake2_128_of(commitment_input(value, salt))
}

/// Relies on `sp_core::blake2_128` (which sp_core takes from `sp_crypto_hashing`), a
/// BLAKE2b digest with a 16-byte output: the digest depends on the input bytes
/// alone.
#[verifier::external_body]
#[allow(deprecated)]
fn blake2_128(data: &[u8]) -> (r: [u8; 16])
    ensures
        r@ == blake2_128_of(data@),
{
    sp_core::blake2_128(data)
}

/// Computes the commitment to `number` under `salt`.
pub fn hash_with_salt(number: u8, salt: &str) -> (r: [u8; 16])
    ensures
        r@ == commitment_of(number, salt@),
{
    let salt_bytes = salt.as_bytes();
    let mut combined: Vec<u8> = Vec::new();
    combined.push(number);
    let mut i: usize = 0;
    while i < salt_bytes.len()
        invariant
            0 <= i <= salt_bytes@.len(),
            salt_bytes@ == encode_utf8(salt@),
            combined@ == seq![number] + salt_bytes@.subrange(0, i as int),
        decreases salt_bytes@.len() - i,
    {
        combined.push(salt_bytes[i]);
        i += 1;
        assert(combined@ =~= seq![number] + salt_bytes@.subrange(0, i as int));
    }
    assert(salt_bytes@.subrange(0, salt_bytes@.len() as int) =~= salt_bytes@);
    blake2_128(combined.as_slice())
}

/// Compares two digests byte by byte.
pub fn digests_equal(a: &[u8; 16], b: &[u8; 16]) -> (r: bool)
    ensures
        r == (a@ == b@),
{
    let mut i: usize = 0;
    while i < 16
        invariant
            0 <= i <= 16,
            a@.len() == 16,
            b@.len() == 16,
            forall|j: int| 0 <= j < i ==> a@[j] == b@[j],
        decreases 16 - i,
    {
        if a[i] != b[i] {
            return false;
        }
        i += 1;
    }
    assert(a@ =~= b@);
    true
}

/// Whether a guess whose digest is `digest` wins: the guess and the revealed
/// secret both open the commitment `committed`.
pub open spec fn opens(digest: Seq<u8>, secret_digest: Seq<u8>, committed: Seq<u8>) -> bool {
    digest == committed && secret_digest == committed
}

/// The least index `i >= from` whose digest in `digests` opens `committed`,
/// if any.
pub open spec fn first_opening_from(
    digests: Seq<Seq<u8>>,
    secret_digest: Seq<u8>,
    committed: Seq<u8>,
    from: int,
) -> Option<int>
    decreases digests.len() - from,
{
    if from < 0 || from >= digests.len() {
        None
    } else if opens(digests[from], secret_digest, committed) {
        Some(from)
    } else {
        first_opening_from(digests, secret_digest, committed, from + 1)
    }
}

/// A first opening found from `from` on lies in the list, at or after `from`,
/// opens the commitment, and no digest between `from` and it does.
pub proof fn lemma_first_opening_from(
    digests: Seq<Seq<u8>>,
    secret_digest: Seq<u8>,
    committed: Seq<u8>,
    from: int,
)
    ensures
        first_opening_from(digests, secret_digest, committed, from) matches Some(i) ==> {
            &&& 0 <= from <= i < digests.len()
            &&& opens(digests[i], secret_digest, committed)
            &&& forall|j: int|
                from <= j < i ==> !opens(#[trigger] digests[j], secret_digest, committed)
        },
        first_opening_from(digests, secret_digest, committed, from) is None ==> forall|j: int|
            0 <= from <= j < digests.len() ==> !opens(
                #[trigger] digests[j],
                secret_digest,
                committed,
            ),
    decreases digests.len() - from,
{
    if 0 <= from < digests.len() && !opens(digests[from], secret_digest, committed) {
        lemma_first_opening_from(digests, secret_digest, committed, from + 1);
    }
}

/// The views of a list of digests.
pub open spec fn digest_views(digests: Seq<[u8; 16]>) -> Seq<Seq<u8>> {
    digests.map_values(|d: [u8; 16]| d@)
}

/// Finds the first of `digests` that, together with `secret_digest`, opens the
/// commitment `committed`.
pub fn first_opening(digests: &[[u8; 16]], secret_digest: &[u8; 16], committed: &[u8; 16]) -> (r:
    Option<usize>)
    ensures
        r matches Some(i) ==> first_opening_from(
            digest_views(digests@),
            secret_digest@,
            committed@,
            0,
        ) == Some(i as int),
        r is None ==> first_opening_from(digest_views(digests@), secret_digest@, committed@, 0)
            is None,
        r matches Some(i) ==> i < digests@.len(),
{
    let ghost ds = digest_views(digests@);
    let secret_opens = digests_equal(secret_digest, committed);
    let mut i: usize = 0;
    while i < digests.len()
        invariant
            0 <= i <= digests@.len(),
            ds == digest_views(digests@),
            secret_opens == (secret_digest@ == committed@),
            first_opening_from(ds, secret_digest@, committed@, 0) == first_opening_from(
                ds,
                secret_digest@,
                committed@,
                i as int,
            ),
        decreases digests@.len() - i,
    {
        if digests_equal(&digests[i], committed) && secret_opens {
            proof {
                lemma_first_opening_from(ds, secret_digest@, committed@, i as int);
            }
            return Some(i);
        }
        i += 1;
    }
    None
}

/// Committing is deterministic: the same value and salt give the same
/// commitment.
pub proof fn lemma_commitment_deterministic(value: u8, salt: Seq<char>, other_salt: Seq<char>)
    requires
        salt == other_salt,
    ensures
        commitment_of(value, salt) == commitment_of(value, other_salt),
{
}

} // verus!
