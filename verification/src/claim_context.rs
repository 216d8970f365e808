//! The compact `LMCG` version-1 claim-context encoding shared with the managed
//! language wrappers, and the fixed-length byte checks around it.
//!
//! Layout: the magic `LMCG`, the version byte `1`, the group count as a
//! little-endian `u32`, then per group its 32-byte message, its slot and its
//! signer count (both little-endian `u32`) and the signers' 32-byte keys.

use vstd::prelude::*;

verus! {

/// Length of a public key, and of a claim message, in bytes.
pub const PUBLIC_KEY_LEN: usize = 32;

/// Largest number of distinct claims one multi-claim proof may carry.
pub const MAX_CLAIMS: usize = 16;

/// Version byte written after the magic.
pub const CLAIM_CONTEXT_VERSION: u8 = 1;

/// The four magic bytes `LMCG`.
pub open spec fn context_magic() -> Seq<u8> {
    seq![0x4Cu8, 0x4Du8, 0x43u8, 0x47u8]
}

/// A 32-byte public key.
pub type PublicKey = [u8; 32];

/// A message bound to a slot.
#[derive(Clone, Copy, Debug)]
pub struct Claim {
    pub message: [u8; 32],
    pub slot: u32,
}

impl Claim {
    pub fn new(message: [u8; 32], slot: u32) -> (claim: Claim)
        ensures
            claim.message@ == message@,
            claim.slot == slot,
    {
        Claim { message, slot }
    }

    pub fn message(&self) -> (message: [u8; 32])
        ensures
            message@ == self.message@,
    {
        self.message
    }

    pub fn slot(&self) -> (slot: u32)
        ensures
            slot == self.slot,
    {
        self.slot
    }
}

/// One claim together with the exact set of signers expected for it.
#[derive(Clone, Debug)]
pub struct ClaimSigners {
    pub claim: Claim,
    pub signers: Vec<[u8; 32]>,
}

/// A group as plain values: message bytes, slot, signer keys.
pub type GroupModel = (Seq<u8>, u32, Seq<Seq<u8>>);

pub open spec fn key_views(keys: Seq<[u8; 32]>) -> Seq<Seq<u8>> {
    keys.map_values(|k: [u8; 32]| k@)
}

impl View for ClaimSigners {
    type V = GroupModel;

    open spec fn view(&self) -> GroupModel {
        (self.claim.message@, self.claim.slot, key_views(self.signers@))
    }
}

pub open spec fn group_models(groups: Seq<ClaimSigners>) -> Seq<GroupModel> {
    groups.map_values(|g: ClaimSigners| g@)
}

/// Every message and key of a group has the fixed 32-byte length.
pub open spec fn group_well_formed(g: GroupModel) -> bool {
    &&& g.0.len() == 32
    &&& forall|i: int| 0 <= i < g.2.len() ==> (#[trigger] g.2[i]).len() == 32
}

/// Which field a truncated context ended in.
#[derive(Clone, Copy, Debug, PartialEq, Eq, Structural)]
pub enum ContextField {
    GroupCount,
    Message,
    Slot,
    SignerCount,
    Signers,
}

/// Why a claim context could not be encoded or decoded.
#[derive(Clone, Copy, Debug, PartialEq, Eq, Structural)]
pub enum ContextError {
    /// More groups than a `u32` count can describe.
    TooManyGroupsToEncode,
    /// A group with more signers than a `u32` count can describe.
    TooManySigners,
    /// Shorter than the header, or a wrong magic or version.
    Malformed,
    /// A cursor position would exceed the address space.
    LengthOverflow,
    /// The bytes end inside the named field.
    Truncated(ContextField),
    /// The header announces more groups than `MAX_CLAIMS`.
    TooManyGroups(u32),
    /// A signer count whose byte length exceeds the address space.
    SignerListOverflow,
    /// Bytes remain after the last group.
    TrailingBytes,
}

/// Little-endian bytes of a `u32`.
pub open spec fn le_u32(v: u32) -> Seq<u8> {
    seq![(v & 0xff) as u8, ((v >> 8u32) & 0xff) as u8, ((v >> 16u32) & 0xff) as u8, ((v >> 24u32) & 0xff) as u8]
}

/// The `u32` whose little-endian bytes are the first four of `b`.
pub open spec fn u32_from_le(b: Seq<u8>) -> u32 {
    (b[0] as u32) | ((b[1] as u32) << 8u32) | ((b[2] as u32) << 16u32) | ((b[3] as u32) << 24u32)
}

pub proof fn lemma_le_u32_roundtrip(v: u32)
    ensures
        le_u32(v).len() == 4,
        u32_from_le(le_u32(v)) == v,
{
    let b0 = (v & 0xff) as u8;
    let b1 = ((v >> 8u32) & 0xff) as u8;
    let b2 = ((v >> 16u32) & 0xff) as u8;
    let b3 = ((v >> 24u32) & 0xff) as u8;
    assert((b0 as u32) | ((b1 as u32) << 8u32) | ((b2 as u32) << 16u32) | ((b3 as u32) << 24u32)
        == v) by (bit_vector)
        requires
            b0 == (v & 0xff) as u8,
            b1 == ((v >> 8u32) & 0xff) as u8,
            b2 == ((v >> 16u32) & 0xff) as u8,
            b3 == ((v >> 24u32) & 0xff) as u8,
    ;
}

pub proof fn lemma_u32_from_le_roundtrip(b: Seq<u8>)
    requires
        b.len() == 4,
    ensures
        le_u32(u32_from_le(b)) == b,
{
    let b0 = b[0];
    let b1 = b[1];
    let b2 = b[2];
    let b3 = b[3];
    let v = u32_from_le(b);
    assert(v == (b0 as u32) | ((b1 as u32) << 8u32) | ((b2 as u32) << 16u32) | ((b3 as u32)
        << 24u32));
    assert((v & 0xff) as u8 == b0 && ((v >> 8u32) & 0xff) as u8 == b1 && ((v >> 16u32) & 0xff) as u8
        == b2 && ((v >> 24u32) & 0xff) as u8 == b3) by (bit_vector)
        requires
            v == (b0 as u32) | ((b1 as u32) << 8u32) | ((b2 as u32) << 16u32) | ((b3 as u32)
                << 24u32),
    ;
    assert(le_u32(v) =~= b);
}

/// The concatenation of all parts, front to back.
pub open spec fn concat_all(parts: Seq<Seq<u8>>) -> Seq<u8>
    decreases parts.len(),
{
    if parts.len() == 0 {
        Seq::empty()
    } else {
        parts[0] + concat_all(parts.drop_first())
    }
}

pub proof fn lemma_concat_all_push(parts: Seq<Seq<u8>>, last: Seq<u8>)
    ensures
        concat_all(parts.push(last)) =~= concat_all(parts) + last,
    decreases parts.len(),
{
    let pushed = parts.push(last);
    if parts.len() == 0 {
        assert(pushed.drop_first() =~= Seq::<Seq<u8>>::empty());
        assert(pushed[0] == last);
        assert(concat_all(pushed) == last + concat_all(pushed.drop_first()));
    } else {
        assert(pushed.drop_first() =~= parts.drop_first().push(last));
        lemma_concat_all_push(parts.drop_first(), last);
        assert(pushed[0] == parts[0]);
        assert(concat_all(pushed) == parts[0] + concat_all(pushed.drop_first()));
    }
}

/// Splitting the concatenation of `n` 32-byte keys gives back the keys.
pub proof fn lemma_concat_keys(keys: Seq<Seq<u8>>)
    requires
        forall|i: int| 0 <= i < keys.len() ==> (#[trigger] keys[i]).len() == 32,
    ensures
        concat_all(keys).len() == 32 * keys.len(),
        chunks32(concat_all(keys), keys.len()) =~= keys,
    decreases keys.len(),
{
    if keys.len() > 0 {
        let rest = keys.drop_first();
        lemma_concat_keys(rest);
        let c = concat_all(keys);
        assert(c == keys[0] + concat_all(rest));
        assert forall|i: int| 0 <= i < keys.len() implies #[trigger] chunks32(c, keys.len())[i]
            == keys[i] by {
            if i == 0 {
                assert(c.subrange(0, 32) =~= keys[0]);
            } else {
                assert(chunks32(concat_all(rest), rest.len())[i - 1] == rest[i - 1]);
                assert(c.subrange(32 * i, 32 * i + 32) =~= concat_all(rest).subrange(
                    32 * (i - 1),
                    32 * (i - 1) + 32,
                ));
            }
        }
    }
}

/// Concatenating the 32-byte chunks of a byte string of length `32 * n`
/// gives back the byte string.
pub proof fn lemma_chunks_concat(s: Seq<u8>, n: nat)
    requires
        s.len() == 32 * n,
    ensures
        concat_all(chunks32(s, n)) =~= s,
        forall|i: int| 0 <= i < n ==> (#[trigger] chunks32(s, n)[i]).len() == 32,
    decreases n,
{
    if n > 0 {
        let tail = s.subrange(32, s.len() as int);
        lemma_chunks_concat(tail, (n - 1) as nat);
        assert forall|i: int| 0 <= i < n - 1 implies #[trigger] chunks32(s, n).drop_first()[i]
            == chunks32(tail, (n - 1) as nat)[i] by {
            assert(s.subrange(32 * (i + 1), 32 * (i + 1) + 32) =~= tail.subrange(32 * i, 32 * i + 32));
        }
        assert(chunks32(s, n).drop_first() =~= chunks32(tail, (n - 1) as nat));
        assert(chunks32(s, n)[0] + tail =~= s);
    }
}

/// The `n` consecutive 32-byte chunks of `s`.
pub open spec fn chunks32(s: Seq<u8>, n: nat) -> Seq<Seq<u8>> {
    Seq::new(n, |i: int| s.subrange(32 * i, 32 * i + 32))
}

/// The bytes of one group.
pub open spec fn encode_group(g: GroupModel) -> Seq<u8> {
    g.0 + le_u32(g.1) + le_u32(g.2.len() as u32) + concat_all(g.2)
}

pub open spec fn encode_group_list(gs: Seq<GroupModel>) -> Seq<u8> {
    concat_all(gs.map_values(|g: GroupModel| encode_group(g)))
}

/// The complete encoding of a group list.
pub open spec fn encode_context(gs: Seq<GroupModel>) -> Seq<u8> {
    context_magic() + seq![1u8] + le_u32(gs.len() as u32) + encode_group_list(gs)
}

/// A group list whose counts fit the `u32` fields.
pub open spec fn encodable(gs: Seq<GroupModel>) -> bool {
    &&& gs.len() <= u32::MAX
    &&& forall|i: int| 0 <= i < gs.len() ==> (#[trigger] gs[i]).2.len() <= u32::MAX
}

/// The error that encoding reports for a list that is not encodable.
pub open spec fn encode_error(gs: Seq<GroupModel>) -> ContextError {
    if gs.len() > u32::MAX {
        ContextError::TooManyGroupsToEncode
    } else {
        ContextError::TooManySigners
    }
}

/// Reads `len` bytes at `cursor`, as the decoder does.
pub open spec fn spec_take(bytes: Seq<u8>, cursor: int, len: int, field: ContextField) -> Result<
    (Seq<u8>, int),
    ContextError,
> {
    if cursor + len > usize::MAX {
        Err(ContextError::LengthOverflow)
    } else if cursor + len > bytes.len() {
        Err(ContextError::Truncated(field))
    } else {
        Ok((bytes.subrange(cursor, cursor + len), cursor + len))
    }
}

/// Decodes the group that starts at `cursor`, giving the group and the cursor after it.
pub open spec fn spec_decode_group(bytes: Seq<u8>, cursor: int) -> Result<
    (GroupModel, int),
    ContextError,
> {
    match spec_take(bytes, cursor, 32, ContextField::Message) {
        Err(e) => Err(e),
        Ok((message, c1)) => match spec_take(bytes, c1, 4, ContextField::Slot) {
            Err(e) => Err(e),
            Ok((slot, c2)) => match spec_take(bytes, c2, 4, ContextField::SignerCount) {
                Err(e) => Err(e),
                Ok((count, c3)) => {
                    let n = u32_from_le(count);
                    if 32 * n > usize::MAX {
                        Err(ContextError::SignerListOverflow)
                    } else {
                        match spec_take(bytes, c3, 32 * n, ContextField::Signers) {
                            Err(e) => Err(e),
                            Ok((keys, c4)) => Ok(
                                ((message, u32_from_le(slot), chunks32(keys, n as nat)), c4),
                            ),
                        }
                    }
                },
            },
        },
    }
}

/// Decodes `n` consecutive groups starting at `cursor`.
pub open spec fn spec_decode_groups_from(bytes: Seq<u8>, cursor: int, n: nat) -> Result<
    (Seq<GroupModel>, int),
    ContextError,
>
    decreases n,
{
    if n == 0 {
        Ok((Seq::empty(), cursor))
    } else {
        match spec_decode_group(bytes, cursor) {
            Err(e) => Err(e),
            Ok((g, next)) => match spec_decode_groups_from(bytes, next, (n - 1) as nat) {
                Err(e) => Err(e),
                Ok((rest, end)) => Ok((seq![g] + rest, end)),
            },
        }
    }
}

/// What decoding a claim context gives for the given bytes.
pub open spec fn spec_decode_context(bytes: Seq<u8>) -> Result<Seq<GroupModel>, ContextError> {
    if bytes.len() < 9 || bytes.subrange(0, 4) != context_magic() || bytes[4] != 1u8 {
        Err(ContextError::Malformed)
    } else {
        let count = u32_from_le(bytes.subrange(5, 9));
        if count > MAX_CLAIMS {
            Err(ContextError::TooManyGroups(count))
        } else {
            match spec_decode_groups_from(bytes, 9, count as nat) {
                Err(e) => Err(e),
                Ok((gs, end)) => if end != bytes.len() {
                    Err(ContextError::TrailingBytes)
                } else {
                    Ok(gs)
                },
            }
        }
    }
}

pub proof fn lemma_encode_group_list_cons(gs: Seq<GroupModel>)
    requires
        gs.len() > 0,
    ensures
        encode_group_list(gs) =~= encode_group(gs[0]) + encode_group_list(gs.drop_first()),
{
    let f = |g: GroupModel| encode_group(g);
    assert(gs.map_values(f).drop_first() =~= gs.drop_first().map_values(f));
}

proof fn lemma_decode_group_of_encoding(prefix: Seq<u8>, g: GroupModel, suffix: Seq<u8>)
    requires
        group_well_formed(g),
        g.2.len() <= u32::MAX,
        (prefix + encode_group(g) + suffix).len() <= usize::MAX,
    ensures
        spec_decode_group(prefix + encode_group(g) + suffix, prefix.len() as int) == Ok::<
            (GroupModel, int),
            ContextError,
        >((g, (prefix.len() + encode_group(g).len()) as int)),
{
    let b = prefix + encode_group(g) + suffix;
    let c = prefix.len() as int;
    let n = g.2.len();
    lemma_le_u32_roundtrip(g.1);
    lemma_le_u32_roundtrip(n as u32);
    lemma_concat_keys(g.2);
    assert(b.subrange(c, c + 32) =~= g.0);
    assert(b.subrange(c + 32, c + 36) =~= le_u32(g.1));
    assert(b.subrange(c + 36, c + 40) =~= le_u32(n as u32));
    assert(u32_from_le(b.subrange(c + 36, c + 40)) == n);
    assert(b.subrange(c + 40, c + 40 + 32 * n) =~= concat_all(g.2));
    let decoded = (b.subrange(c, c + 32), u32_from_le(b.subrange(c + 32, c + 36)), chunks32(
        b.subrange(c + 40, c + 40 + 32 * n),
        n,
    ));
    assert(decoded.2 =~= g.2);
    assert(decoded == g);
}

#[verifier::spinoff_prover]
proof fn lemma_decode_groups_of_encoding(prefix: Seq<u8>, gs: Seq<GroupModel>, suffix: Seq<u8>)
    requires
        forall|i: int| 0 <= i < gs.len() ==> group_well_formed(#[trigger] gs[i]),
        encodable(gs),
        (prefix + encode_group_list(gs) + suffix).len() <= usize::MAX,
    ensures
        spec_decode_groups_from(prefix + encode_group_list(gs) + suffix, prefix.len() as int, gs.len())
            == Ok::<(Seq<GroupModel>, int), ContextError>(
            (gs, (prefix.len() + encode_group_list(gs).len()) as int),
        ),
    decreases gs.len(),
{
    if gs.len() == 0 {
        assert(gs =~= Seq::<GroupModel>::empty());
    } else {
        let g = gs[0];
        let rest = gs.drop_first();
        lemma_encode_group_list_cons(gs);
        let eg = encode_group(g);
        let tail = encode_group_list(rest);
        let b = prefix + encode_group_list(gs) + suffix;
        assert(b == prefix + eg + (tail + suffix)) by {
            assert(b =~= prefix + eg + (tail + suffix));
        }
        lemma_decode_group_of_encoding(prefix, g, tail + suffix);
        assert(b == (prefix + eg) + tail + suffix) by {
            assert(b =~= (prefix + eg) + tail + suffix);
        }
        assert forall|i: int| 0 <= i < rest.len() implies group_well_formed(#[trigger] rest[i]) by {
            assert(rest[i] == gs[i + 1]);
        }
        assert forall|i: int| 0 <= i < rest.len() implies (#[trigger] rest[i]).2.len() <= u32::MAX by {
            assert(rest[i] == gs[i + 1]);
        }
        lemma_decode_groups_of_encoding(prefix + eg, rest, suffix);
        assert(seq![g] + rest =~= gs);
    }
}

/// Decoding the encoding of a group list gives the same list back.
pub proof fn lemma_decode_encode_context(gs: Seq<GroupModel>)
    requires
        gs.len() <= MAX_CLAIMS,
        forall|i: int| 0 <= i < gs.len() ==> group_well_formed(#[trigger] gs[i]),
        encodable(gs),
        encode_context(gs).len() <= usize::MAX,
    ensures
        spec_decode_context(encode_context(gs)) == Ok::<Seq<GroupModel>, ContextError>(gs),
{
    let header = context_magic() + seq![1u8] + le_u32(gs.len() as u32);
    let b = encode_context(gs);
    lemma_le_u32_roundtrip(gs.len() as u32);
    assert(b =~= header + encode_group_list(gs) + Seq::<u8>::empty());
    assert(b.subrange(0, 4) =~= context_magic());
    assert(b.subrange(5, 9) =~= le_u32(gs.len() as u32));
    lemma_decode_groups_of_encoding(header, gs, Seq::<u8>::empty());
}

proof fn lemma_encoding_of_decoded_group(bytes: Seq<u8>, cursor: int)
    requires
        0 <= cursor <= bytes.len(),
    ensures
        spec_decode_group(bytes, cursor) matches Ok((g, end)) ==> {
            &&& cursor <= end <= bytes.len()
            &&& bytes.subrange(cursor, end) == encode_group(g)
            &&& group_well_formed(g)
            &&& g.2.len() <= u32::MAX
        },
{
    if let Ok((g, end)) = spec_decode_group(bytes, cursor) {
        let c = cursor;
        let s4 = bytes.subrange(c + 32, c + 36);
        let k4 = bytes.subrange(c + 36, c + 40);
        let n = u32_from_le(k4);
        let keys = bytes.subrange(c + 40, c + 40 + 32 * n);
        lemma_u32_from_le_roundtrip(s4);
        lemma_u32_from_le_roundtrip(k4);
        lemma_chunks_concat(keys, n as nat);
        assert(g.2.len() == n);
        assert(bytes.subrange(c, end) =~= bytes.subrange(c, c + 32) + s4 + k4 + keys);
    }
}

proof fn lemma_encoding_of_decoded_groups(bytes: Seq<u8>, cursor: int, n: nat)
    requires
        0 <= cursor <= bytes.len(),
        n <= u32::MAX,
    ensures
        spec_decode_groups_from(bytes, cursor, n) matches Ok((gs, end)) ==> {
            &&& cursor <= end <= bytes.len()
            &&& gs.len() == n
            &&& bytes.subrange(cursor, end) == encode_group_list(gs)
            &&& forall|i: int| 0 <= i < gs.len() ==> group_well_formed(#[trigger] gs[i])
            &&& encodable(gs)
        },
    decreases n,
{
    if n == 0 {
        assert(bytes.subrange(cursor, cursor) =~= Seq::<u8>::empty());
        assert(Seq::<GroupModel>::empty().map_values(|g: GroupModel| encode_group(g))
            =~= Seq::<Seq<u8>>::empty());
    } else {
        lemma_encoding_of_decoded_group(bytes, cursor);
        if let Ok((g, next)) = spec_decode_group(bytes, cursor) {
            lemma_encoding_of_decoded_groups(bytes, next, (n - 1) as nat);
            if let Ok((rest, end)) = spec_decode_groups_from(bytes, next, (n - 1) as nat) {
                let gs = seq![g] + rest;
                assert(gs[0] == g);
                assert(gs.drop_first() =~= rest);
                lemma_encode_group_list_cons(gs);
                assert(bytes.subrange(cursor, end) =~= bytes.subrange(cursor, next)
                    + bytes.subrange(next, end));
                assert forall|i: int| 0 <= i < gs.len() implies group_well_formed(#[trigger] gs[i]) by {
                    if i > 0 { assert(gs[i] == rest[i - 1]); }
                }
                assert forall|i: int| 0 <= i < gs.len() implies (#[trigger] gs[i]).2.len() <= u32::MAX by {
                    if i > 0 { assert(gs[i] == rest[i - 1]); }
                }
            }
        }
    }
}

/// Whatever decodes successfully is exactly the encoding of what it decodes to.
pub proof fn lemma_encode_decode_context(bytes: Seq<u8>)
    ensures
        spec_decode_context(bytes) matches Ok(gs) ==> {
            &&& encode_context(gs) == bytes
            &&& gs.len() <= MAX_CLAIMS
            &&& forall|i: int| 0 <= i < gs.len() ==> group_well_formed(#[trigger] gs[i])
            &&& encodable(gs)
        },
{
    if let Ok(gs) = spec_decode_context(bytes) {
        let count = u32_from_le(bytes.subrange(5, 9));
        lemma_u32_from_le_roundtrip(bytes.subrange(5, 9));
        lemma_encoding_of_decoded_groups(bytes, 9, count as nat);
        assert(gs.len() == count);
        assert(bytes =~= bytes.subrange(0, 4) + seq![bytes[4]] + bytes.subrange(5, 9)
            + bytes.subrange(9, bytes.len() as int));
    }
}

// ---------------------------------------------------------------------------
// Executable encoder and decoder.
// ---------------------------------------------------------------------------

fn push_le_u32(out: &mut Vec<u8>, v: u32)
    ensures
        final(out)@ == old(out)@ + le_u32(v),
{
    out.push((v & 0xff) as u8);
    out.push(((v >> 8u32) & 0xff) as u8);
    out.push(((v >> 16u32) & 0xff) as u8);
    out.push(((v >> 24u32) & 0xff) as u8);
    assert(out@ =~= old(out)@ + le_u32(v));
}

fn append_bytes(out: &mut Vec<u8>, bytes: &[u8])
    ensures
        final(out)@ == old(out)@ + bytes@,
{
    let mut i: usize = 0;
    while i < bytes.len()
        invariant
            i <= bytes@.len(),
            out@ == old(out)@ + bytes@.take(i as int),
        decreases bytes@.len() - i,
    {
        out.push(bytes[i]);
        i = i + 1;
        assert(out@ =~= old(out)@ + bytes@.take(i as int));
    }
    assert(bytes@.take(i as int) =~= bytes@);
}

proof fn lemma_encode_group_list_push(gs: Seq<GroupModel>, i: int)
    requires
        0 <= i < gs.len(),
    ensures
        encode_group_list(gs.take(i + 1)) =~= encode_group_list(gs.take(i)) + encode_group(gs[i]),
{
    let f = |g: GroupModel| encode_group(g);
    assert(gs.take(i + 1).map_values(f) =~= gs.take(i).map_values(f).push(encode_group(gs[i])));
    lemma_concat_all_push(gs.take(i).map_values(f), encode_group(gs[i]));
}

/// Encodes groups in the claim-context format.
pub fn encode_groups(groups: &[ClaimSigners]) -> (res: Result<Vec<u8>, ContextError>)
    ensures
        match res {
            Ok(bytes) => encodable(group_models(groups@)) && bytes@ == encode_context(
                group_models(groups@),
            ),
            Err(e) => !encodable(group_models(groups@)) && e == encode_error(group_models(groups@)),
        },
{
    let ghost models = group_models(groups@);
    if groups.len() > 0xffff_ffffusize {
        return Err(ContextError::TooManyGroupsToEncode);
    }
    let count = groups.len() as u32;
    let mut result: Vec<u8> = Vec::new();
    result.push(0x4Cu8);
    result.push(0x4Du8);
    result.push(0x43u8);
    result.push(0x47u8);
    result.push(CLAIM_CONTEXT_VERSION);
    push_le_u32(&mut result, count);
    let ghost header = context_magic() + seq![1u8] + le_u32(count);
    assert(result@ =~= header);
    assert(models.take(0) =~= Seq::<GroupModel>::empty());
    assert(models.take(0).map_values(|g: GroupModel| encode_group(g)) =~= Seq::<Seq<u8>>::empty());
    let mut i: usize = 0;
    while i < groups.len()
        invariant
            models == group_models(groups@),
            models.len() == groups@.len(),
            groups@.len() <= u32::MAX,
            count == groups@.len(),
            header == context_magic() + seq![1u8] + le_u32(count),
            i <= groups@.len(),
            result@ == header + encode_group_list(models.take(i as int)),
            forall|j: int| 0 <= j < i ==> (#[trigger] models[j]).2.len() <= u32::MAX,
        decreases groups@.len() - i,
    {
        let group = &groups[i];
        assert(models[i as int] == group@);
        if group.signers.len() > 0xffff_ffffusize {
            assert(!encodable(models)) by {
                assert(models[i as int].2.len() > u32::MAX);
            }
            return Err(ContextError::TooManySigners);
        }
        let signer_count = group.signers.len() as u32;
        let ghost before = result@;
        append_bytes(&mut result, group.claim.message.as_slice());
        push_le_u32(&mut result, group.claim.slot);
        push_le_u32(&mut result, signer_count);
        let ghost keys = key_views(group.signers@);
        let ghost after_counts = result@;
        assert(keys.take(0) =~= Seq::<Seq<u8>>::empty());
        let mut k: usize = 0;
        while k < group.signers.len()
            invariant
                k <= group.signers@.len(),
                keys == key_views(group.signers@),
                keys.len() == group.signers@.len(),
                result@ == after_counts + concat_all(keys.take(k as int)),
            decreases group.signers@.len() - k,
        {
            append_bytes(&mut result, group.signers[k].as_slice());
            proof {
                assert(keys.take(k + 1) =~= keys.take(k as int).push(keys[k as int]));
                lemma_concat_all_push(keys.take(k as int), keys[k as int]);
            }
            k = k + 1;
        }
        assert(keys.take(k as int) =~= keys);
        proof {
            lemma_encode_group_list_push(models, i as int);
        }
        assert(result@ =~= before + encode_group(models[i as int]));
        i = i + 1;
    }
    assert(models.take(i as int) =~= models);
    Ok(result)
}

/// The cursor moves past the field only when it could be read.
pub open spec fn take_outcome<T>(
    bytes: Seq<u8>,
    old_cursor: usize,
    new_cursor: usize,
    len: int,
    field: ContextField,
    res: Result<T, ContextError>,
    read: spec_fn(Seq<u8>) -> T,
) -> bool {
    match spec_take(bytes, old_cursor as int, len, field) {
        Ok((b, c)) => res == Ok::<T, ContextError>(read(b)) && new_cursor == c,
        Err(e) => res == Err::<T, ContextError>(e) && new_cursor == old_cursor,
    }
}

/// Reads a little-endian `u32` at the cursor.
pub fn take_u32(bytes: &[u8], cursor: &mut usize, field: ContextField) -> (res: Result<
    u32,
    ContextError,
>)
    ensures
        take_outcome(bytes@, *old(cursor), *final(cursor), 4, field, res, |b: Seq<u8>| u32_from_le(b)),
{
    let c = *cursor;
    if c > usize::MAX - 4 {
        return Err(ContextError::LengthOverflow);
    }
    let end = c + 4;
    if end > bytes.len() {
        return Err(ContextError::Truncated(field));
    }
    let value = (bytes[c] as u32) | ((bytes[c + 1] as u32) << 8u32) | ((bytes[c + 2] as u32)
        << 16u32) | ((bytes[c + 3] as u32) << 24u32);
    *cursor = end;
    let ghost b = bytes@.subrange(c as int, end as int);
    assert(b[0] == bytes@[c as int] && b[1] == bytes@[c + 1] && b[2] == bytes@[c + 2] && b[3]
        == bytes@[c + 3]);
    Ok(value)
}

/// Reads `len` bytes at the cursor.
pub fn take_bytes<'a>(bytes: &'a [u8], cursor: &mut usize, len: usize, field: ContextField) -> (res:
    Result<&'a [u8], ContextError>)
    ensures
        match spec_take(bytes@, *old(cursor) as int, len as int, field) {
            Ok((b, c)) => res matches Ok(s) && s@ == b && *final(cursor) == c,
            Err(e) => res == Err::<&[u8], ContextError>(e) && *final(cursor) == *old(cursor),
        },
{
    let c = *cursor;
    if c > usize::MAX - len {
        return Err(ContextError::LengthOverflow);
    }
    let end = c + len;
    if end > bytes.len() {
        return Err(ContextError::Truncated(field));
    }
    *cursor = end;
    Ok(vstd::slice::slice_subrange(bytes, c, end))
}

fn copy_key(data: &[u8], start: usize) -> (key: [u8; 32])
    requires
        start + 32 <= data@.len(),
    ensures
        key@ == data@.subrange(start as int, start + 32),
{
    let mut key = [0u8; 32];
    let mut i: usize = 0;
    while i < 32
        invariant
            i <= 32,
            start + 32 <= data.len(),
            forall|j: int| 0 <= j < i ==> key@[j] == data@[start + j],
        decreases 32 - i,
    {
        key[i] = data[start + i];
        i = i + 1;
    }
    assert(key@ =~= data@.subrange(start as int, start + 32));
    key
}

/// Splits `32 * n` bytes into `n` keys.
pub fn split_keys(data: &[u8], n: usize) -> (keys: Vec<[u8; 32]>)
    requires
        data@.len() == 32 * n,
    ensures
        key_views(keys@) == chunks32(data@, n as nat),
{
    let mut keys: Vec<[u8; 32]> = Vec::new();
    let mut i: usize = 0;
    while i < n
        invariant
            i <= n,
            data@.len() == 32 * n,
            data.len() == 32 * n,
            key_views(keys@) =~= chunks32(data@, n as nat).take(i as int),
        decreases n - i,
    {
        let key = copy_key(data, 32 * i);
        let ghost prev = keys@;
        keys.push(key);
        assert(key_views(keys@) =~= key_views(prev).push(key@));
        i = i + 1;
        assert(key_views(keys@) =~= chunks32(data@, n as nat).take(i as int));
    }
    assert(chunks32(data@, n as nat).take(i as int) =~= chunks32(data@, n as nat));
    keys
}

fn decode_group(bytes: &[u8], cursor: &mut usize) -> (res: Result<ClaimSigners, ContextError>)
    requires
        *old(cursor) <= bytes@.len(),
    ensures
        *final(cursor) <= bytes@.len(),
        match res {
            Ok(g) => spec_decode_group(bytes@, *old(cursor) as int) == Ok::<
                (GroupModel, int),
                ContextError,
            >((g@, *final(cursor) as int)),
            Err(e) => spec_decode_group(bytes@, *old(cursor) as int) is Err
                && spec_decode_group(bytes@, *old(cursor) as int) == Err::<
                (GroupModel, int),
                ContextError,
            >(e),
        },
{
    let message_bytes = take_bytes(bytes, cursor, PUBLIC_KEY_LEN, ContextField::Message)?;
    let message = copy_key(message_bytes, 0);
    assert(message@ =~= message_bytes@);
    let slot = take_u32(bytes, cursor, ContextField::Slot)?;
    let signer_count = take_u32(bytes, cursor, ContextField::SignerCount)?;
    let n = signer_count as usize;
    if n > usize::MAX / 32 {
        return Err(ContextError::SignerListOverflow);
    }
    let signer_bytes = take_bytes(bytes, cursor, 32 * n, ContextField::Signers)?;
    let signers = split_keys(signer_bytes, n);
    let group = ClaimSigners { claim: Claim { message, slot }, signers };
    assert(group@.2 =~= chunks32(signer_bytes@, n as nat));
    Ok(group)
}

pub open spec fn prepend_groups(
    done: Seq<GroupModel>,
    r: Result<(Seq<GroupModel>, int), ContextError>,
) -> Result<(Seq<GroupModel>, int), ContextError> {
    match r {
        Ok((rest, end)) => Ok((done + rest, end)),
        Err(e) => Err(e),
    }
}

pub open spec fn finish_decode(
    bytes: Seq<u8>,
    groups: Result<(Seq<GroupModel>, int), ContextError>,
) -> Result<Seq<GroupModel>, ContextError> {
    match groups {
        Err(e) => Err(e),
        Ok((gs, end)) => if end != bytes.len() {
            Err(ContextError::TrailingBytes)
        } else {
            Ok(gs)
        },
    }
}

/// Decodes a claim context.
pub fn decode_groups(bytes: &[u8]) -> (res: Result<Vec<ClaimSigners>, ContextError>)
    ensures
        match res {
            Ok(groups) => spec_decode_context(bytes@) == Ok::<Seq<GroupModel>, ContextError>(
                group_models(groups@),
            ),
            Err(e) => spec_decode_context(bytes@) == Err::<Seq<GroupModel>, ContextError>(e),
        },
{
    if bytes.len() < 9 || bytes[0] != 0x4Cu8 || bytes[1] != 0x4Du8 || bytes[2] != 0x43u8
        || bytes[3] != 0x47u8 || bytes[4] != CLAIM_CONTEXT_VERSION {
        proof {
            if bytes@.len() >= 9 && bytes@.subrange(0, 4) == context_magic() {
                assert(bytes@.subrange(0, 4)[0] == bytes@[0]);
                assert(bytes@.subrange(0, 4)[1] == bytes@[1]);
                assert(bytes@.subrange(0, 4)[2] == bytes@[2]);
                assert(bytes@.subrange(0, 4)[3] == bytes@[3]);
            }
        }
        return Err(ContextError::Malformed);
    }
    assert(bytes@.subrange(0, 4) =~= context_magic());
    let mut cursor: usize = 5;
    let count = match take_u32(bytes, &mut cursor, ContextField::GroupCount) {
        Ok(v) => v,
        Err(e) => {
            return Err(e);
        },
    };
    if count as usize > MAX_CLAIMS {
        return Err(ContextError::TooManyGroups(count));
    }
    let n = count as usize;
    let ghost whole = spec_decode_groups_from(bytes@, 9, n as nat);
    assert(u32_from_le(bytes@.subrange(5, 9)) == count);
    assert(spec_decode_context(bytes@) == finish_decode(bytes@, whole));
    let mut groups: Vec<ClaimSigners> = Vec::new();
    let mut i: usize = 0;
    while i < n
        invariant
            i <= n,
            cursor <= bytes@.len(),
            whole == spec_decode_groups_from(bytes@, 9, n as nat),
            spec_decode_context(bytes@) == finish_decode(bytes@, whole),
            whole == prepend_groups(
                group_models(groups@),
                spec_decode_groups_from(bytes@, cursor as int, (n - i) as nat),
            ),
        decreases n - i,
    {
        let ghost c0 = cursor as int;
        let ghost done = group_models(groups@);
        let group = match decode_group(bytes, &mut cursor) {
            Ok(g) => g,
            Err(e) => {
                assert(spec_decode_groups_from(bytes@, c0, (n - i) as nat) == Err::<
                    (Seq<GroupModel>, int),
                    ContextError,
                >(e));
                return Err(e);
            },
        };
        let ghost rest_result = spec_decode_groups_from(bytes@, cursor as int, (n - i - 1) as nat);
        groups.push(group);
        proof {
            assert(group_models(groups@) =~= done.push(group@));
            match rest_result {
                Ok((rest, end)) => {
                    assert(done + (seq![group@] + rest) =~= done.push(group@) + rest);
                },
                Err(e) => {},
            }
        }
        i = i + 1;
    }
    assert(group_models(groups@) + Seq::<GroupModel>::empty() =~= group_models(groups@));
    if cursor != bytes.len() {
        return Err(ContextError::TrailingBytes);
    }
    Ok(groups)
}

} // verus!
