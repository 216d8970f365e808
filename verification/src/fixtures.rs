//! Deterministic fixture plans for the comparison benchmarks: the key
//! material of every signer, the claim each signer signs, and how signers
//! are grouped by claim. Generating keys and signatures from a plan is the
//! signature libraries' work.

use vstd::prelude::*;
use crate::claim_context::{key_views, Claim, ClaimSigners};
use crate::limits::{MAX_DISTINCT_CLAIMS, MAX_SAME_CLAIM_SIGNERS};

verus! {

/// Why a fixture plan could not be built.
#[derive(Clone, Copy, Debug, PartialEq, Eq, Structural)]
pub enum FixtureError {
    /// No signer was asked for.
    ZeroCount,
    /// No claim was asked for.
    ZeroClaimCount,
    /// More claims than signers were asked for.
    ClaimCountExceedsCount,
    /// The signers cannot be split evenly over the claims.
    NotDivisible,
    /// A distinct-claim fixture with more claims than `MAX_DISTINCT_CLAIMS`.
    TooManyDistinctClaims(usize),
    /// A mixed-claim fixture with more signatures than `MAX_SAME_CLAIM_SIGNERS`.
    TooManyMixedSignatures(usize),
    /// A mixed-claim fixture with more claims than `MAX_DISTINCT_CLAIMS`.
    TooManyMixedClaims(usize),
    /// `index + 1` does not fit in a `u64`.
    IndexNotEncodable(usize),
    /// A claim index that does not fit in a `u32` slot.
    SlotNotEncodable(usize),
}

/// Byte `k` (0 = most significant) of the big-endian encoding of `v`.
pub open spec fn be_byte(v: u64, k: int) -> u8 {
    ((v >> ((56 - 8 * k) as u64)) & 0xffu64) as u8
}

/// 32 bytes: 24 zero bytes, then `v` in big-endian order.
pub open spec fn padded_be(v: u64) -> Seq<u8> {
    Seq::new(32, |i: int| if i < 24 { 0u8 } else { be_byte(v, i - 24) })
}

/// Whether `index + 1` can be encoded as a `u64`.
pub open spec fn index_encodable(index: int) -> bool {
    0 <= index && index + 1 <= u64::MAX
}

/// The key material of signer (or message) `index`: `index + 1` in the
/// last eight bytes, big-endian.
pub open spec fn key_material(index: int) -> Seq<u8> {
    padded_be((index + 1) as u64)
}

/// Eight big-endian bytes determine a `u64`.
proof fn lemma_be_bytes_determine(a: u64, b: u64)
    requires
        forall|k: int| 0 <= k < 8 ==> be_byte(a, k) == be_byte(b, k),
    ensures
        a == b,
{
    assert(be_byte(a, 0) == be_byte(b, 0));
    assert(be_byte(a, 1) == be_byte(b, 1));
    assert(be_byte(a, 2) == be_byte(b, 2));
    assert(be_byte(a, 3) == be_byte(b, 3));
    assert(be_byte(a, 4) == be_byte(b, 4));
    assert(be_byte(a, 5) == be_byte(b, 5));
    assert(be_byte(a, 6) == be_byte(b, 6));
    assert(be_byte(a, 7) == be_byte(b, 7));
    assert(a == b) by (bit_vector)
        requires
            ((a >> 56u64) & 0xffu64) as u8 == ((b >> 56u64) & 0xffu64) as u8,
            ((a >> 48u64) & 0xffu64) as u8 == ((b >> 48u64) & 0xffu64) as u8,
            ((a >> 40u64) & 0xffu64) as u8 == ((b >> 40u64) & 0xffu64) as u8,
            ((a >> 32u64) & 0xffu64) as u8 == ((b >> 32u64) & 0xffu64) as u8,
            ((a >> 24u64) & 0xffu64) as u8 == ((b >> 24u64) & 0xffu64) as u8,
            ((a >> 16u64) & 0xffu64) as u8 == ((b >> 16u64) & 0xffu64) as u8,
            ((a >> 8u64) & 0xffu64) as u8 == ((b >> 8u64) & 0xffu64) as u8,
            ((a >> 0u64) & 0xffu64) as u8 == ((b >> 0u64) & 0xffu64) as u8,
    ;
}

/// Distinct indices get distinct key material.
pub proof fn lemma_key_material_injective(a: int, b: int)
    requires
        index_encodable(a),
        index_encodable(b),
        key_material(a) == key_material(b),
    ensures
        a == b,
{
    let va = (a + 1) as u64;
    let vb = (b + 1) as u64;
    assert forall|k: int| 0 <= k < 8 implies be_byte(va, k) == be_byte(vb, k) by {
        assert(key_material(a)[24 + k] == key_material(b)[24 + k]);
        assert(key_material(a)[24 + k] == padded_be(va)[24 + k]);
        assert(padded_be(va)[24 + k] == be_byte(va, k));
        assert(padded_be(vb)[24 + k] == be_byte(vb, k));
    }
    lemma_be_bytes_determine(va, vb);
}

/// Key material is never all zero bytes.
pub proof fn lemma_key_material_nonzero(index: int)
    requires
        index_encodable(index),
    ensures
        key_material(index) != Seq::<u8>::new(32, |i: int| 0u8),
{
    let v = (index + 1) as u64;
    if key_material(index) == Seq::<u8>::new(32, |i: int| 0u8) {
        assert forall|k: int| 0 <= k < 8 implies be_byte(v, k) == be_byte(0u64, k) by {
            assert(key_material(index)[24 + k] == 0u8);
            assert(be_byte(0u64, k) == 0u8) by {
                let s = (56 - 8 * k) as u64;
                assert(((0u64 >> s) & 0xffu64) as u8 == 0u8) by (bit_vector);
            }
        }
        lemma_be_bytes_determine(v, 0u64);
    }
}

/// The 32-byte key material of signer or message `index`.
pub fn indexed_bytes(index: usize) -> (res: Result<[u8; 32], FixtureError>)
    ensures
        index_encodable(index as int) <==> res is Ok,
        res matches Ok(bytes) ==> bytes@ == key_material(index as int),
        !index_encodable(index as int) ==> res == Err::<[u8; 32], FixtureError>(
            FixtureError::IndexNotEncodable(index),
        ),
{
    if index as u128 >= 0xffff_ffff_ffff_ffffu128 {
        return Err(FixtureError::IndexNotEncodable(index));
    }
    let value: u64 = (index as u64) + 1;
    let b0 = ((value >> 56u64) & 0xffu64) as u8;
    let b1 = ((value >> 48u64) & 0xffu64) as u8;
    let b2 = ((value >> 40u64) & 0xffu64) as u8;
    let b3 = ((value >> 32u64) & 0xffu64) as u8;
    let b4 = ((value >> 24u64) & 0xffu64) as u8;
    let b5 = ((value >> 16u64) & 0xffu64) as u8;
    let b6 = ((value >> 8u64) & 0xffu64) as u8;
    let b7 = (value & 0xffu64) as u8;
    let bytes: [u8; 32] = [
        0,
        0,
        0,
        0,
        0,
        0,
        0,
        0,
        0,
        0,
        0,
        0,
        0,
        0,
        0,
        0,
        0,
        0,
        0,
        0,
        0,
        0,
        0,
        0,
        b0,
        b1,
        b2,
        b3,
        b4,
        b5,
        b6,
        b7,
    ];
    proof {
        assert(b7 == ((value >> 0u64) & 0xffu64) as u8) by (bit_vector)
            requires
                b7 == (value & 0xffu64) as u8,
        ;
        assert(bytes@ =~= key_material(index as int));
    }
    Ok(bytes)
}

/// Deterministic, nonzero 32-byte key material for fixture signer `index`.
pub fn deterministic_key_material(index: usize) -> (res: Result<[u8; 32], FixtureError>)
    ensures
        index_encodable(index as int) <==> res is Ok,
        res matches Ok(bytes) ==> bytes@ == key_material(index as int),
        !index_encodable(index as int) ==> res == Err::<[u8; 32], FixtureError>(
            FixtureError::IndexNotEncodable(index),
        ),
{
    indexed_bytes(index)
}

/// Whether `count` signers can be spread evenly over `claim_count` claims.
pub open spec fn spec_shape(count: usize, claim_count: usize) -> Result<(), FixtureError> {
    if count == 0 {
        Err(FixtureError::ZeroCount)
    } else if claim_count == 0 {
        Err(FixtureError::ZeroClaimCount)
    } else if claim_count > count {
        Err(FixtureError::ClaimCountExceedsCount)
    } else if count % claim_count != 0 {
        Err(FixtureError::NotDivisible)
    } else {
        Ok(())
    }
}

/// Checks that `count` signers can be spread evenly over `claim_count` claims.
pub fn check_fixture_shape(count: usize, claim_count: usize) -> (res: Result<(), FixtureError>)
    ensures
        res == spec_shape(count, claim_count),
{
    if count == 0 {
        return Err(FixtureError::ZeroCount);
    }
    if claim_count == 0 {
        return Err(FixtureError::ZeroClaimCount);
    }
    if claim_count > count {
        return Err(FixtureError::ClaimCountExceedsCount);
    }
    if count % claim_count != 0 {
        return Err(FixtureError::NotDivisible);
    }
    Ok(())
}

/// What one fixture signer is made from: the index of the claim it signs,
/// that claim's message, and the seed of its keys.
#[derive(Clone, Copy, Debug)]
pub struct SignerPlan {
    pub message_index: usize,
    pub message: [u8; 32],
    pub seed: [u8; 32],
}

/// The plan of a whole fixture: signer `i` signs claim `i % claim_count`.
#[derive(Clone, Debug)]
pub struct FixturePlan {
    pub claim_count: usize,
    pub signers: Vec<SignerPlan>,
}

/// Signer `i` of a plan over `claim_count` claims is planned as it should be.
pub open spec fn signer_planned(p: SignerPlan, i: int, claim_count: int) -> bool {
    &&& p.message_index == i % claim_count
    &&& p.message@ == key_material(i % claim_count)
    &&& p.seed@ == key_material(i)
}

/// `plan` has `count` signers over `claim_count` claims, each planned.
pub open spec fn plan_matches(plan: FixturePlan, count: usize, claim_count: usize) -> bool {
    &&& plan.claim_count == claim_count
    &&& plan.signers@.len() == count
    &&& forall|i: int|
        0 <= i < count ==> #[trigger] signer_planned(plan.signers@[i], i, claim_count as int)
}

/// The outcome of planning `count` signers over `claim_count` claims: the
/// shape check, then one signer per index.
pub open spec fn plan_outcome(
    res: Result<FixturePlan, FixtureError>,
    count: usize,
    claim_count: usize,
) -> bool {
    match spec_shape(count, claim_count) {
        Err(e) => res == Err::<FixturePlan, FixtureError>(e),
        Ok(()) => res matches Ok(plan) && plan_matches(plan, count, claim_count),
    }
}

impl FixturePlan {
    /// Plans `count` signers spread evenly over `claim_count` claims.
    pub fn build(count: usize, claim_count: usize) -> (res: Result<FixturePlan, FixtureError>)
        ensures
            plan_outcome(res, count, claim_count),
    {
        match check_fixture_shape(count, claim_count) {
            Err(e) => {
                return Err(e);
            },
            Ok(()) => {},
        }
        let mut signers: Vec<SignerPlan> = Vec::new();
        let mut index: usize = 0;
        while index < count
            invariant
                0 < claim_count <= count,
                index <= count,
                signers@.len() == index,
                forall|i: int|
                    0 <= i < index ==> #[trigger] signer_planned(
                        signers@[i],
                        i,
                        claim_count as int,
                    ),
            decreases count - index,
        {
            let message_index = index % claim_count;
            let message = match indexed_bytes(message_index) {
                Ok(m) => m,
                Err(e) => {
                    return Err(e);
                },
            };
            let seed = match indexed_bytes(index) {
                Ok(s) => s,
                Err(e) => {
                    return Err(e);
                },
            };
            signers.push(SignerPlan { message_index, message, seed });
            index = index + 1;
        }
        Ok(FixturePlan { claim_count, signers })
    }

    /// A same-claim BLS fixture: every signer signs one message.
    pub fn bls_same_claim(count: usize) -> (res: Result<FixturePlan, FixtureError>)
        ensures
            plan_outcome(res, count, 1),
    {
        FixturePlan::build(count, 1)
    }

    /// A distinct-claim BLS fixture: every signer signs its own message.
    pub fn bls_distinct_claims(count: usize) -> (res: Result<FixturePlan, FixtureError>)
        ensures
            plan_outcome(res, count, count),
    {
        FixturePlan::build(count, count)
    }

    /// A mixed-claim BLS fixture.
    pub fn bls_mixed_claims(signature_count: usize, claim_count: usize) -> (res: Result<
        FixturePlan,
        FixtureError,
    >)
        ensures
            plan_outcome(res, signature_count, claim_count),
    {
        FixturePlan::build(signature_count, claim_count)
    }

    /// A same-claim fixture of both schemes.
    pub fn same_claim(count: usize) -> (res: Result<FixturePlan, FixtureError>)
        ensures
            plan_outcome(res, count, 1),
    {
        FixturePlan::build(count, 1)
    }

    /// A distinct-claim fixture of both schemes, of at most
    /// `MAX_DISTINCT_CLAIMS` signers.
    pub fn distinct_claims(count: usize) -> (res: Result<FixturePlan, FixtureError>)
        ensures
            count > MAX_DISTINCT_CLAIMS ==> res == Err::<FixturePlan, FixtureError>(
                FixtureError::TooManyDistinctClaims(count),
            ),
            count <= MAX_DISTINCT_CLAIMS ==> plan_outcome(res, count, count),
    {
        if count > MAX_DISTINCT_CLAIMS {
            return Err(FixtureError::TooManyDistinctClaims(count));
        }
        FixturePlan::build(count, count)
    }

    /// A mixed-claim fixture of both schemes, of at most
    /// `MAX_SAME_CLAIM_SIGNERS` signatures over at most `MAX_DISTINCT_CLAIMS`
    /// claims.
    pub fn mixed_claims(signature_count: usize, claim_count: usize) -> (res: Result<
        FixturePlan,
        FixtureError,
    >)
        ensures
            signature_count > MAX_SAME_CLAIM_SIGNERS ==> res == Err::<FixturePlan, FixtureError>(
                FixtureError::TooManyMixedSignatures(signature_count),
            ),
            signature_count <= MAX_SAME_CLAIM_SIGNERS && claim_count > MAX_DISTINCT_CLAIMS ==> res
                == Err::<FixturePlan, FixtureError>(FixtureError::TooManyMixedClaims(claim_count)),
            signature_count <= MAX_SAME_CLAIM_SIGNERS && claim_count <= MAX_DISTINCT_CLAIMS
                ==> plan_outcome(res, signature_count, claim_count),
    {
        if signature_count > MAX_SAME_CLAIM_SIGNERS {
            return Err(FixtureError::TooManyMixedSignatures(signature_count));
        }
        if claim_count > MAX_DISTINCT_CLAIMS {
            return Err(FixtureError::TooManyMixedClaims(claim_count));
        }
        FixturePlan::build(signature_count, claim_count)
    }

    /// Number of signers.
    pub fn len(&self) -> (n: usize)
        ensures
            n == self.signers@.len(),
    {
        self.signers.len()
    }

    /// Whether the plan has no signer.
    pub fn is_empty(&self) -> (empty: bool)
        ensures
            empty == (self.signers@.len() == 0),
    {
        self.signers.len() == 0
    }

    /// Number of claims.
    pub fn claim_count(&self) -> (n: usize)
        ensures
            n == self.claim_count,
    {
        self.claim_count
    }
}


/// In a plan, no two signers share key material.
pub proof fn lemma_plan_seeds_distinct(plan: FixturePlan, count: usize, claim_count: usize, i: int, j: int)
    requires
        plan_matches(plan, count, claim_count),
        0 <= i < count,
        0 <= j < count,
        i != j,
    ensures
        plan.signers@[i].seed@ != plan.signers@[j].seed@,
{
    assert(signer_planned(plan.signers@[i], i, claim_count as int));
    assert(signer_planned(plan.signers@[j], j, claim_count as int));
    if plan.signers@[i].seed@ == plan.signers@[j].seed@ {
        lemma_key_material_injective(i, j);
    }
}

/// In a plan, two signers sign the same message exactly when they take the
/// same claim.
pub proof fn lemma_plan_messages_follow_claims(
    plan: FixturePlan,
    count: usize,
    claim_count: usize,
    i: int,
    j: int,
)
    requires
        plan_matches(plan, count, claim_count),
        claim_count > 0,
        0 <= i < count,
        0 <= j < count,
    ensures
        (plan.signers@[i].message@ == plan.signers@[j].message@) <==> (i % (claim_count as int) == j
            % (claim_count as int)),
{
    assert(signer_planned(plan.signers@[i], i, claim_count as int));
    assert(signer_planned(plan.signers@[j], j, claim_count as int));
    if plan.signers@[i].message@ == plan.signers@[j].message@ {
        lemma_key_material_injective(i % (claim_count as int), j % (claim_count as int));
    }
}

/// `members` lists, in ascending order, the signers in `0..count` of claim
/// `c` when signers take claims round-robin over `claim_count` claims:
/// `c`, `c + claim_count`, `c + 2 * claim_count`, ... while below `count`.
pub open spec fn round_robin_group(members: Seq<usize>, count: int, claim_count: int, c: int) -> bool {
    &&& forall|t: int| 0 <= t < members.len() ==> #[trigger] members[t] == c + t * claim_count
    &&& c + members.len() * claim_count >= count
    &&& members.len() == 0 || c + (members.len() - 1) * claim_count < count
}

/// The signer indices of claim `c`, in ascending order.
fn claim_members(count: usize, claim_count: usize, c: usize) -> (members: Vec<usize>)
    requires
        0 < claim_count,
        c < claim_count,
    ensures
        round_robin_group(members@, count as int, claim_count as int, c as int),
{
    let mut members: Vec<usize> = Vec::new();
    let mut j: usize = c;
    while j < count
        invariant_except_break
            j < count ==> j == c + members@.len() * claim_count,
            forall|t: int| 0 <= t < members@.len() ==> #[trigger] members@[t] == c + t * claim_count,
            members@.len() == 0 || c + (members@.len() - 1) * claim_count < count,
            j == c + members@.len() * claim_count,
        invariant
            0 < claim_count,
            c < claim_count,
        ensures
            round_robin_group(members@, count as int, claim_count as int, c as int),
        decreases count - j,
    {
        let ghost prev = members@;
        members.push(j);
        assert forall|t: int| 0 <= t < members@.len() implies #[trigger] members@[t] == c + t
            * claim_count by {
            if t < prev.len() {
                assert(members@[t] == prev[t]);
            }
        }
        if count - j <= claim_count {
            assert(c + members@.len() * claim_count >= count) by (nonlinear_arith)
                requires
                    j == c + prev.len() * claim_count,
                    members@.len() == prev.len() + 1,
                    count - j <= claim_count,
            ;
            break;
        }
        assert(c + members@.len() * claim_count == j + claim_count) by (nonlinear_arith)
            requires
                j == c + prev.len() * claim_count,
                members@.len() == prev.len() + 1,
        ;
        j = j + claim_count;
    }
    members
}

/// With `count` a multiple of `claim_count`, every claim gets
/// `count / claim_count` signers.
pub proof fn lemma_round_robin_even(members: Seq<usize>, count: int, claim_count: int, c: int)
    requires
        0 <= c < claim_count,
        count >= 0,
        count % claim_count == 0,
        round_robin_group(members, count, claim_count, c),
    ensures
        members.len() == count / claim_count,
{
    let m = count / claim_count;
    let len = members.len() as int;
    vstd::arithmetic::div_mod::lemma_fundamental_div_mod(count, claim_count);
    assert(count == m * claim_count);
    if len > m {
        assert(c + (len - 1) * claim_count >= c + m * claim_count) by (nonlinear_arith)
            requires
                len - 1 >= m,
                claim_count > 0,
        ;
    }
    if len < m {
        assert(c + len * claim_count < m * claim_count) by (nonlinear_arith)
            requires
                len + 1 <= m,
                0 <= c < claim_count,
        ;
    }
}

/// Every signer `j` in `0..count` is member `j / claim_count` of the group of
/// claim `j % claim_count`.
pub proof fn lemma_round_robin_covers(members: Seq<usize>, count: int, claim_count: int, j: int)
    requires
        0 < claim_count,
        0 <= j < count,
        round_robin_group(members, count, claim_count, j % claim_count),
    ensures
        j / claim_count < members.len(),
        members[j / claim_count] == j,
{
    let c = j % claim_count;
    let q = j / claim_count;
    let len = members.len() as int;
    vstd::arithmetic::div_mod::lemma_fundamental_div_mod(j, claim_count);
    assert(j == q * claim_count + c);
    if len <= q {
        assert(c + len * claim_count <= c + q * claim_count) by (nonlinear_arith)
            requires
                len <= q,
                claim_count > 0,
        ;
    }
    assert(members[q] == c + q * claim_count);
}

/// The plan produced for a valid shape: at least one claim, and no more
/// claims than signers.
pub open spec fn plan_well_formed(plan: FixturePlan) -> bool {
    0 < plan.claim_count <= plan.signers@.len()
}

/// The slot of the claim with index `message_index`.
pub fn claim_slot(message_index: usize) -> (res: Result<u32, FixtureError>)
    ensures
        message_index <= u32::MAX ==> res == Ok::<u32, FixtureError>(message_index as u32),
        message_index > u32::MAX ==> res == Err::<u32, FixtureError>(
            FixtureError::SlotNotEncodable(message_index),
        ),
{
    if message_index as u128 > 0xffff_ffffu128 {
        Err(FixtureError::SlotNotEncodable(message_index))
    } else {
        Ok(message_index as u32)
    }
}

/// The last slot of every fixture key: keys cover the slots
/// `0..=MAX_DISTINCT_CLAIMS - 1`, one per supported claim.
pub fn last_fixture_slot() -> (slot: u32)
    ensures
        slot == MAX_DISTINCT_CLAIMS - 1,
{
    (MAX_DISTINCT_CLAIMS - 1) as u32
}

impl FixturePlan {
    /// Each signer's claim: its message at the slot equal to its claim index.
    pub fn lean_claims(&self) -> (res: Result<Vec<Claim>, FixtureError>)
        ensures
            res matches Ok(claims) ==> claims@.len() == self.signers@.len() && forall|i: int|
                0 <= i < claims@.len() ==> (#[trigger] claims@[i]).message@
                    == self.signers@[i].message@ && claims@[i].slot
                    == self.signers@[i].message_index,
            res is Ok <==> forall|i: int|
                0 <= i < self.signers@.len() ==> (#[trigger] self.signers@[i]).message_index
                    <= u32::MAX,
            res matches Err(e) ==> exists|i: int|
                0 <= i < self.signers@.len() && (#[trigger] self.signers@[i]).message_index
                    > u32::MAX && e == FixtureError::SlotNotEncodable(
                    self.signers@[i].message_index,
                ),
    {
        let mut claims: Vec<Claim> = Vec::new();
        let mut i: usize = 0;
        while i < self.signers.len()
            invariant
                i <= self.signers@.len(),
                claims@.len() == i,
                forall|k: int|
                    0 <= k < i ==> (#[trigger] claims@[k]).message@ == self.signers@[k].message@
                        && claims@[k].slot == self.signers@[k].message_index,
                forall|k: int|
                    0 <= k < i ==> (#[trigger] self.signers@[k]).message_index <= u32::MAX,
            decreases self.signers@.len() - i,
        {
            let signer = self.signers[i];
            let slot = match claim_slot(signer.message_index) {
                Ok(s) => s,
                Err(e) => {
                    assert(self.signers@[i as int].message_index > u32::MAX);
                    return Err(e);
                },
            };
            claims.push(Claim::new(signer.message, slot));
            i = i + 1;
        }
        Ok(claims)
    }

    /// The signer indices of each claim, claim by claim: signer `j` belongs
    /// to claim `j % claim_count`.
    pub fn claim_groups(&self) -> (groups: Vec<Vec<usize>>)
        requires
            plan_well_formed(*self),
        ensures
            groups@.len() == self.claim_count,
            forall|c: int|
                0 <= c < groups@.len() ==> round_robin_group(
                    (#[trigger] groups@[c])@,
                    self.signers@.len() as int,
                    self.claim_count as int,
                    c,
                ),
    {
        let mut groups: Vec<Vec<usize>> = Vec::new();
        let mut c: usize = 0;
        while c < self.claim_count
            invariant
                plan_well_formed(*self),
                c <= self.claim_count,
                groups@.len() == c,
                forall|k: int|
                    0 <= k < c ==> round_robin_group(
                        (#[trigger] groups@[k])@,
                        self.signers@.len() as int,
                        self.claim_count as int,
                        k,
                    ),
            decreases self.claim_count - c,
        {
            let members = claim_members(self.signers.len(), self.claim_count, c);
            groups.push(members);
            c = c + 1;
        }
        groups
    }

    /// The claim groups of a lean fixture: for each claim, the claim of its
    /// first signer and the public keys of all its signers, in signer order.
    pub fn lean_claim_groups(&self, claims: &[Claim], public_keys: &[[u8; 32]]) -> (groups: Vec<
        ClaimSigners,
    >)
        requires
            plan_well_formed(*self),
            claims@.len() == self.signers@.len(),
            public_keys@.len() == self.signers@.len(),
        ensures
            groups@.len() == self.claim_count,
            forall|c: int|
                0 <= c < groups@.len() ==> {
                    let g = #[trigger] groups@[c];
                    &&& g.claim == claims@[c]
                    &&& exists|members: Seq<usize>|
                        {
                            &&& round_robin_group(
                                members,
                                self.signers@.len() as int,
                                self.claim_count as int,
                                c,
                            )
                            &&& g.signers@.len() == members.len()
                            &&& forall|t: int|
                                0 <= t < members.len() ==> #[trigger] g.signers@[t]
                                    == public_keys@[members[t] as int]
                        }
                },
    {
        let indices = self.claim_groups();
        let mut groups: Vec<ClaimSigners> = Vec::new();
        let mut c: usize = 0;
        while c < indices.len()
            invariant
                plan_well_formed(*self),
                claims@.len() == self.signers@.len(),
                public_keys@.len() == self.signers@.len(),
                indices@.len() == self.claim_count,
                forall|k: int|
                    0 <= k < indices@.len() ==> round_robin_group(
                        (#[trigger] indices@[k])@,
                        self.signers@.len() as int,
                        self.claim_count as int,
                        k,
                    ),
                c <= indices@.len(),
                groups@.len() == c,
                forall|k: int|
                    0 <= k < c ==> {
                        let g = #[trigger] groups@[k];
                        &&& g.claim == claims@[k]
                        &&& g.signers@.len() == indices@[k]@.len()
                        &&& forall|t: int|
                            0 <= t < indices@[k]@.len() ==> #[trigger] g.signers@[t]
                                == public_keys@[indices@[k]@[t] as int]
                    },
            decreases indices@.len() - c,
        {
            let members = &indices[c];
            assert(round_robin_group(
                members@,
                self.signers@.len() as int,
                self.claim_count as int,
                c as int,
            ));
            let mut signers: Vec<[u8; 32]> = Vec::new();
            let mut t: usize = 0;
            while t < members.len()
                invariant
                    round_robin_group(
                        members@,
                        self.signers@.len() as int,
                        self.claim_count as int,
                        c as int,
                    ),
                    public_keys@.len() == self.signers@.len(),
                    plan_well_formed(*self),
                    t <= members@.len(),
                    signers@.len() == t,
                    forall|u: int|
                        0 <= u < t ==> #[trigger] signers@[u] == public_keys@[members@[u] as int],
                decreases members@.len() - t,
            {
                let j = members[t];
                assert(members@[t as int] == c + t * self.claim_count);
                proof {
                    if members@.len() > 0 {
                        assert(c + (members@.len() - 1) * self.claim_count < self.signers@.len());
                        assert(t * self.claim_count <= (members@.len() - 1) * self.claim_count)
                            by (nonlinear_arith)
                            requires
                                t <= members@.len() - 1,
                                self.claim_count > 0,
                        ;
                    }
                }
                signers.push(public_keys[j]);
                t = t + 1;
            }
            groups.push(ClaimSigners { claim: claims[c], signers });
            c = c + 1;
        }
        proof {
            assert forall|c: int| 0 <= c < groups@.len() implies {
                let g = #[trigger] groups@[c];
                &&& g.claim == claims@[c]
                &&& exists|members: Seq<usize>|
                    {
                        &&& round_robin_group(
                            members,
                            self.signers@.len() as int,
                            self.claim_count as int,
                            c,
                        )
                        &&& g.signers@.len() == members.len()
                        &&& forall|t: int|
                            0 <= t < members.len() ==> #[trigger] g.signers@[t]
                                == public_keys@[members[t] as int]
                    }
            } by {
                let members = indices@[c]@;
                assert(round_robin_group(
                    members,
                    self.signers@.len() as int,
                    self.claim_count as int,
                    c,
                ));
            }
        }
        groups
    }
}

} // verus!
