//! secp256k1 signing with a key that stays in this process, and EIP-1559 transaction encoding.
//!
//! The private key arrives as a secret and the attester address is derived from it, so that
//! consumers can see on-chain exactly which key signed.

use k256::ecdsa::SigningKey;
use rlp::RlpStream;
use vstd::prelude::*;
use vstd::slice::{slice_subrange, slice_to_vec};
use vstd::string::*;

use crate::abi::{hex_bytes, hex_to_bytes, law_prefix_optional};
use crate::bytes::{
    array20, array32, be_bytes, be_value, extend, lemma_bytes_round_trip, lemma_minimal_be,
    lemma_trimming_keeps_value, min_be, minimal_be, trim_left, without_leading_zeros,
};
use crate::keccak::{keccak256, keccak_digest};
use crate::text::{
    decimal, decimal_text, has_0x, is_white, lemma_trimmed_blank, trim, trimmed, trimmed_end,
    trimmed_start,
};

verus! {

// ---- RLP ------------------------------------------------------------------------------

/// The length field of a long item: 32 bits, without leading zero bytes.
pub open spec fn rlp_size(len: nat) -> Seq<u8> {
    minimal_be(len % 0x1_0000_0000)
}

/// The RLP form of a byte string.
pub open spec fn rlp_bytes(b: Seq<u8>) -> Seq<u8> {
    if b.len() == 1 && b[0] < 0x80 {
        b
    } else if b.len() <= 55 {
        seq![(0x80 + b.len()) as u8] + b
    } else {
        seq![(0xb7 + rlp_size(b.len()).len()) as u8] + rlp_size(b.len()) + b
    }
}

/// The RLP form of a list whose items' forms, one after the other, are `payload`.
pub open spec fn rlp_list(payload: Seq<u8>) -> Seq<u8> {
    if payload.len() <= 55 {
        seq![(0xc0 + payload.len()) as u8] + payload
    } else {
        seq![(0xf7 + rlp_size(payload.len()).len()) as u8] + rlp_size(payload.len()) + payload
    }
}

/// The pieces one after the other.
pub open spec fn concat(pieces: Seq<Seq<u8>>) -> Seq<u8>
    decreases pieces.len(),
{
    if pieces.len() == 0 {
        Seq::empty()
    } else {
        concat(pieces.drop_last()) + pieces.last()
    }
}

/// An RLP list that is being written.
#[verifier::external_type_specification]
#[verifier::external_body]
pub struct ExRlpStream(RlpStream);

/// The RLP forms of the items that the list has so far.
pub uninterp spec fn rlp_items(s: RlpStream) -> Seq<Seq<u8>>;

/// How many items the list was begun for.
pub uninterp spec fn rlp_slots(s: RlpStream) -> nat;

/// `RlpStream::new_list`: an empty list, begun for `n` items.
#[verifier::external_body]
fn new_list(n: usize) -> (s: RlpStream)
    requires
        n > 0,
    ensures
        rlp_items(s) == Seq::<Seq<u8>>::empty(),
        rlp_slots(s) == n,
{
    RlpStream::new_list(n)
}

/// `RlpStream::append` of a byte string, which must not be one item too many.
#[verifier::external_body]
fn append(s: &mut RlpStream, b: &Vec<u8>)
    requires
        rlp_items(*old(s)).len() < rlp_slots(*old(s)),
    ensures
        rlp_items(*final(s)) == rlp_items(*old(s)).push(rlp_bytes(b@)),
        rlp_slots(*final(s)) == rlp_slots(*old(s)),
{
    s.append(b);
}

/// `RlpStream::begin_list` for no items: an empty list as the next item, which must not be one too
/// many.
#[verifier::external_body]
fn append_empty_list(s: &mut RlpStream)
    requires
        rlp_items(*old(s)).len() < rlp_slots(*old(s)),
    ensures
        rlp_items(*final(s)) == rlp_items(*old(s)).push(rlp_list(Seq::empty())),
        rlp_slots(*final(s)) == rlp_slots(*old(s)),
{
    s.begin_list(0);
}

/// `RlpStream::out`: the RLP form of the list, once it has all its items.
#[verifier::external_body]
fn out(s: RlpStream) -> (r: Vec<u8>)
    requires
        rlp_items(s).len() == rlp_slots(s),
    ensures
        r@ == rlp_list(concat(rlp_items(s))),
{
    s.out().to_vec()
}

// ---- keys -----------------------------------------------------------------------------

/// The order of the secp256k1 group.
pub open spec fn curve_order() -> nat {
    0xFFFFFFFF_FFFFFFFF_FFFFFFFF_FFFFFFFE_BAAEDCE6_AF48A03B_BFD25E8C_D0364141nat
}

/// Do these 32 bytes spell a private key?
pub open spec fn valid_secret(key: Seq<u8>) -> bool {
    key.len() == 32 && 0 < be_value(key) < curve_order()
}

/// The uncompressed point of the public key that belongs to a private key.
pub uninterp spec fn public_point(key: Seq<u8>) -> Seq<u8>;

/// The recoverable ECDSA signature, with a nonce by RFC 6979, that a private key gives for a hash:
/// recovery id, `r` and `s`.
pub uninterp spec fn signature_of(key: Seq<u8>, hash: Seq<u8>) -> Option<(u8, Seq<u8>, Seq<u8>)>;

/// `k256`'s `SigningKey::from_slice`, and the point of its verifying key, uncompressed. The key is
/// refused, always with the same words, where it is zero or not below the group order. The point
/// depends on the key alone: the byte 4 and two 32-byte coordinates.
#[verifier::external_body]
fn k256_point(key: &[u8; 32]) -> (r: Result<Vec<u8>, String>)
    ensures
        match r {
            Ok(p) => valid_secret(key@) && p@ == public_point(key@) && p@.len() == 65 && p@[0] == 4,
            Err(e) => !valid_secret(key@) && e@ == "signature error"@,
        },
{
    let sk = SigningKey::from_slice(key).map_err(|e| e.to_string())?;
    Ok(sk.verifying_key().to_encoded_point(false).as_bytes().to_vec())
}

/// `k256`'s `SigningKey::sign_prehash_recoverable`. The outcome depends on the key and the hash
/// alone. The recovery id has two bits, both numbers are below the group order and not zero, and
/// `s` is in the lower half. What a failure says is always the same. That the signature verifies
/// under the public key is left unsaid.
#[verifier::external_body]
fn k256_sign(key: &[u8; 32], hash: &[u8; 32]) -> (r: Result<(u8, [u8; 32], [u8; 32]), String>)
    requires
        valid_secret(key@),
    ensures
        match r {
            Ok((id, r, s)) => {
                &&& signature_of(key@, hash@) == Some((id, r@, s@))
                &&& id < 4
                &&& 0 < be_value(r@) < curve_order()
                &&& 0 < be_value(s@) <= curve_order() / 2
            },
            Err(e) => signature_of(key@, hash@) is None && e@ == "signature error"@,
        },
{
    let sk = SigningKey::from_slice(key).map_err(|e| e.to_string())?;
    let (sig, id) = sk.sign_prehash_recoverable(hash).map_err(|e| e.to_string())?;
    Ok((id.to_byte(), sig.r().to_bytes().into(), sig.s().to_bytes().into()))
}

/// A private key: 32 bytes that spell a number from one up to the group order.
pub struct SecretKey {
    bytes: [u8; 32],
}

impl SecretKey {
    pub closed spec fn view(&self) -> Seq<u8> {
        self.bytes@
    }

    #[verifier::type_invariant]
    spec fn is_valid(&self) -> bool {
        valid_secret(self.bytes@)
    }
}

/// A private key, and the address that belongs to it.
pub struct Signer {
    pub sk: SecretKey,
    pub address: [u8; 20],
}

/// The address that belongs to an uncompressed point: the last 20 bytes of the digest of its
/// coordinates.
pub open spec fn address_of_point(point: Seq<u8>) -> Seq<u8> {
    keccak_digest(point.skip(1)).skip(12)
}

/// The address that belongs to a private key.
pub open spec fn address_of(key: Seq<u8>) -> Seq<u8> {
    address_of_point(public_point(key))
}

/// The address that belongs to an uncompressed point.
pub fn point_address(point: &[u8]) -> (address: [u8; 20])
    requires
        point@.len() >= 1,
    ensures
        address@ == address_of_point(point@),
{
    assert(point@.subrange(1, point@.len() as int) =~= point@.skip(1));
    let h = keccak256(slice_subrange(point, 1, point.len()));
    assert(h@.subrange(12, 32) =~= h@.skip(12));
    array20(slice_subrange(h.as_slice(), 12, 32))
}

/// The private key that `text` spells in hexadecimal, with or without `0x`.
pub open spec fn secret_in(text: Seq<char>) -> Result<Seq<u8>, Seq<char>> {
    match hex_bytes(trimmed(text)) {
        Err(e) => Err(e),
        Ok(b) => if b.len() != 32 {
            Err("private key must be 32 bytes, got "@ + decimal_text(b.len()))
        } else if !valid_secret(b) {
            Err("invalid private key: "@ + "signature error"@)
        } else {
            Ok(b)
        },
    }
}

/// Is the signature of the form that the network takes? The parity is 0 or 1, `r` and `s` are
/// 32-byte numbers below the group order and not zero, and `s` is in the lower half.
pub open spec fn signature_in_range(parity: nat, r: Seq<u8>, s: Seq<u8>) -> bool {
    &&& parity < 2
    &&& r.len() == 32
    &&& s.len() == 32
    &&& 0 < be_value(r) < curve_order()
    &&& 0 < be_value(s) <= curve_order() / 2
}

impl Signer {
    /// The private key.
    pub open spec fn secret(&self) -> Seq<u8> {
        self.sk@
    }

    /// Build from a 32-byte hex private key (with or without `0x`).
    pub fn from_hex(pk_hex: &str) -> (r: Result<Self, String>)
        ensures
            match r {
                Ok(s) => secret_in(pk_hex@) == Ok::<Seq<u8>, Seq<char>>(s.secret()) && s.address@
                    == address_of(s.secret()),
                Err(e) => secret_in(pk_hex@) == Err::<Seq<u8>, Seq<char>>(e@),
            },
    {
        let bytes = match hex_to_bytes(trim(pk_hex)) {
            Ok(b) => b,
            Err(e) => {
                return Err(e);
            },
        };
        if bytes.len() != 32 {
            let mut e = "private key must be 32 bytes, got ".to_owned();
            e.append(decimal(bytes.len() as u128).as_str());
            return Err(e);
        }
        let key = array32(bytes.as_slice());
        match k256_point(&key) {
            Ok(point) => {
                let sk = SecretKey { bytes: key };
                Ok(Signer { sk, address: point_address(point.as_slice()) })
            },
            Err(why) => {
                let mut e = "invalid private key: ".to_owned();
                e.append(why.as_str());
                Err(e)
            },
        }
    }

    /// Sign a 32-byte prehash. Returns (yParity 0/1, r, s), low-S normalized.
    fn sign_hash(&self, hash: &[u8; 32]) -> (r: Result<(u8, [u8; 32], [u8; 32]), String>)
        ensures
            match r {
                Ok((parity, r, s)) => {
                    &&& signed_with(self.secret(), hash@) == Ok::<
                        (nat, Seq<u8>, Seq<u8>),
                        Seq<char>,
                    >((parity as nat, r@, s@))
                    &&& signature_in_range(parity as nat, r@, s@)
                },
                Err(e) => signed_with(self.secret(), hash@) == Err::<
                    (nat, Seq<u8>, Seq<u8>),
                    Seq<char>,
                >(e@),
            },
    {
        proof {
            use_type_invariant(&self.sk);
        }
        match k256_sign(&self.sk.bytes, hash) {
            Ok((id, r, s)) => Ok((id % 2, r, s)),
            Err(why) => {
                let mut e = "signing failed: ".to_owned();
                e.append(why.as_str());
                Err(e)
            },
        }
    }
}

/// The signature of a hash under a private key: the parity of the nonce point's `y`, which is the
/// low bit of the recovery id, then `r` and `s`.
pub open spec fn signed_with(key: Seq<u8>, hash: Seq<u8>) -> Result<
    (nat, Seq<u8>, Seq<u8>),
    Seq<char>,
> {
    match signature_of(key, hash) {
        Some((id, r, s)) => Ok((id as nat % 2, r, s)),
        None => Err("signing failed: "@ + "signature error"@),
    }
}

// ---- transactions ---------------------------------------------------------------------

/// An EIP-1559 (type-0x02) transaction, all amounts in wei.
pub struct Eip1559Tx {
    pub chain_id: u64,
    pub nonce: u64,
    pub max_priority_fee: u128,
    pub max_fee: u128,
    pub gas_limit: u64,
    pub to: [u8; 20],
    pub value: u128,
    pub data: Vec<u8>,
}

/// What an `Eip1559Tx` holds.
pub struct TxModel {
    pub chain_id: nat,
    pub nonce: nat,
    pub max_priority_fee: nat,
    pub max_fee: nat,
    pub gas_limit: nat,
    pub to: Seq<u8>,
    pub value: nat,
    pub data: Seq<u8>,
}

impl View for Eip1559Tx {
    type V = TxModel;

    open spec fn view(&self) -> TxModel {
        TxModel {
            chain_id: self.chain_id as nat,
            nonce: self.nonce as nat,
            max_priority_fee: self.max_priority_fee as nat,
            max_fee: self.max_fee as nat,
            gas_limit: self.gas_limit as nat,
            to: self.to@,
            value: self.value as nat,
            data: self.data@,
        }
    }
}

/// The RLP forms of the 9 base fields, in order; the last is the empty access list.
pub open spec fn base_items(tx: TxModel) -> Seq<Seq<u8>> {
    seq![
        rlp_bytes(minimal_be(tx.chain_id)),
        rlp_bytes(minimal_be(tx.nonce)),
        rlp_bytes(minimal_be(tx.max_priority_fee)),
        rlp_bytes(minimal_be(tx.max_fee)),
        rlp_bytes(minimal_be(tx.gas_limit)),
        rlp_bytes(tx.to),
        rlp_bytes(minimal_be(tx.value)),
        rlp_bytes(tx.data),
        rlp_list(Seq::empty()),
    ]
}

/// What is hashed and signed: the type byte, and the list of the base fields.
pub open spec fn unsigned_payload(tx: TxModel) -> Seq<u8> {
    seq![2u8] + rlp_list(concat(base_items(tx)))
}

/// The hash that the signer signs.
pub open spec fn tx_hash(tx: TxModel) -> Seq<u8> {
    keccak_digest(unsigned_payload(tx))
}

/// The signed transaction: the type byte, and the list of the base fields and the signature.
pub open spec fn signed_payload(tx: TxModel, parity: nat, r: Seq<u8>, s: Seq<u8>) -> Seq<u8> {
    seq![2u8] + rlp_list(
        concat(
            base_items(tx) + seq![
                rlp_bytes(minimal_be(parity)),
                rlp_bytes(without_leading_zeros(r)),
                rlp_bytes(without_leading_zeros(s)),
            ],
        ),
    )
}

/// The raw transaction that a private key makes of `tx`.
pub open spec fn signed_tx(tx: TxModel, key: Seq<u8>) -> Result<Seq<u8>, Seq<char>> {
    match signed_with(key, tx_hash(tx)) {
        Ok((parity, r, s)) => Ok(signed_payload(tx, parity, r, s)),
        Err(e) => Err(e),
    }
}

impl Eip1559Tx {
    /// The 9 base fields, in order, appended to an existing list stream.
    fn append_base(&self, s: &mut RlpStream)
        requires
            rlp_items(*old(s)).len() + 9 <= rlp_slots(*old(s)),
        ensures
            rlp_items(*final(s)) == rlp_items(*old(s)) + base_items(self@),
            rlp_slots(*final(s)) == rlp_slots(*old(s)),
    {
        let ghost before = rlp_items(*s);
        append(s, &min_be(self.chain_id as u128));
        append(s, &min_be(self.nonce as u128));
        append(s, &min_be(self.max_priority_fee));
        append(s, &min_be(self.max_fee));
        append(s, &min_be(self.gas_limit as u128));
        append(s, &slice_to_vec(self.to.as_slice()));
        append(s, &min_be(self.value));
        append(s, &self.data);
        append_empty_list(s);
        assert(rlp_items(*s) =~= before + base_items(self@));
    }

    /// 0x02 || rlp([9 base fields]): what is hashed and signed.
    pub fn signing_payload(&self) -> (payload: Vec<u8>)
        ensures
            payload@ == unsigned_payload(self@),
    {
        let mut s = new_list(9);
        self.append_base(&mut s);
        assert(rlp_items(s) =~= base_items(self@));
        let mut payload: Vec<u8> = Vec::new();
        payload.push(2u8);
        extend(&mut payload, out(s).as_slice());
        assert(payload@ =~= unsigned_payload(self@));
        payload
    }

    /// keccak256(0x02 || rlp([9 base fields])): the hash that the signer signs.
    pub fn sighash(&self) -> (h: [u8; 32])
        ensures
            h@ == tx_hash(self@),
    {
        keccak256(self.signing_payload().as_slice())
    }

    /// The raw `0x02…`-prefixed transaction bytes with the given signature.
    pub fn with_signature(&self, y_parity: u8, r: &[u8; 32], s_val: &[u8; 32]) -> (raw: Vec<u8>)
        ensures
            raw@ == signed_payload(self@, y_parity as nat, r@, s_val@),
    {
        let mut s = new_list(12);
        self.append_base(&mut s);
        append(&mut s, &min_be(y_parity as u128));
        append(&mut s, &trim_left(r.as_slice()));
        append(&mut s, &trim_left(s_val.as_slice()));
        assert(rlp_items(s) =~= base_items(self@) + seq![
            rlp_bytes(minimal_be(y_parity as nat)),
            rlp_bytes(without_leading_zeros(r@)),
            rlp_bytes(without_leading_zeros(s_val@)),
        ]);
        let mut raw: Vec<u8> = Vec::new();
        raw.push(2u8);
        extend(&mut raw, out(s).as_slice());
        assert(raw@ =~= signed_payload(self@, y_parity as nat, r@, s_val@));
        raw
    }

    /// Sign and return the raw `0x02…`-prefixed transaction bytes, ready for
    /// eth_sendRawTransaction.
    pub fn sign(&self, signer: &Signer) -> (r: Result<Vec<u8>, String>)
        ensures
            match r {
                Ok(raw) => {
                    let (parity, r, s) = signed_with(signer.secret(), tx_hash(self@))->Ok_0;
                    &&& signed_tx(self@, signer.secret()) == Ok::<Seq<u8>, Seq<char>>(raw@)
                    &&& raw@ == signed_payload(self@, parity, r, s)
                    &&& signature_in_range(parity, r, s)
                },
                Err(e) => signed_tx(self@, signer.secret()) == Err::<Seq<u8>, Seq<char>>(e@),
            },
    {
        match signer.sign_hash(&self.sighash()) {
            Ok((y_parity, r, s_val)) => Ok(self.with_signature(y_parity, &r, &s_val)),
            Err(e) => Err(e),
        }
    }
}

// ---- laws -----------------------------------------------------------------------------

/// A private key can be written with or without `0x`, and with white space around it.
pub proof fn law_key_spelling(digits: Seq<char>, c: char)
    requires
        !has_0x(digits),
        trimmed(digits) == digits,
        is_white(c),
    ensures
        secret_in("0x"@ + digits) == secret_in(digits),
        secret_in(seq![c] + digits) == secret_in(digits),
        secret_in(digits.push(c)) == secret_in(digits),
{
    reveal_strlit("0x");
    let s = "0x"@ + digits;
    assert(trimmed_start(s) == s);
    lemma_untrimmed(digits);
    assert(trimmed_end(s) == s) by {
        if digits.len() > 0 {
            assert(s.last() == digits.last());
        }
    }
    law_prefix_optional(digits);
    lemma_trimmed_blank(digits, c);
}

proof fn lemma_untrimmed(s: Seq<char>)
    requires
        trimmed(s) == s,
    ensures
        s.len() > 0 ==> !is_white(s.last()),
{
    lemma_trims_shrink(s);
    let t = trimmed_start(s);
    lemma_trims_shrink(t);
    assert(t =~= s);
    if s.len() > 0 && is_white(s.last()) {
        lemma_trims_shrink(s.drop_last());
    }
}

proof fn lemma_trims_shrink(s: Seq<char>)
    ensures
        trimmed_start(s).len() <= s.len(),
        trimmed_end(s).len() <= s.len(),
        trimmed_start(s).is_suffix_of(s),
    decreases s.len(),
{
    if s.len() > 0 {
        if is_white(s[0]) {
            lemma_trims_shrink(s.skip(1));
        }
        if is_white(s.last()) {
            lemma_trims_shrink(s.drop_last());
        }
    }
}

proof fn lemma_size_field(len: nat)
    requires
        0 < len < 0x1_0000_0000,
    ensures
        1 <= rlp_size(len).len() <= 4,
        be_value(rlp_size(len)) == len,
{
    lemma_minimal_be(len);
    reveal_with_fuel(minimal_be, 5);
}

/// The RLP form of a byte string tells where it ends and what it is: two forms at the start of the
/// same bytes are of the same string. The length field has 32 bits, so this is so for strings of
/// fewer than 2^32 bytes.
pub proof fn law_rlp_bytes_self_delimiting(a: Seq<u8>, b: Seq<u8>, x: Seq<u8>, y: Seq<u8>)
    requires
        a.len() < 0x1_0000_0000,
        b.len() < 0x1_0000_0000,
        rlp_bytes(a) + x == rlp_bytes(b) + y,
    ensures
        a == b,
        x == y,
{
    let w = rlp_bytes(a) + x;
    let ra = rlp_bytes(a);
    let rb = rlp_bytes(b);
    assert(x =~= w.skip(ra.len() as int));
    assert(y =~= w.skip(rb.len() as int));
    if a.len() > 55 {
        lemma_size_field(a.len());
    }
    if b.len() > 55 {
        lemma_size_field(b.len());
    }
    assert(w[0] == ra[0]);
    assert(w[0] == rb[0]);
    if a.len() > 55 {
        assert(w[0] == (0xb7 + rlp_size(a.len()).len()) as u8);
    } else if a.len() != 1 || a[0] >= 0x80 {
        assert(w[0] == (0x80 + a.len()) as u8);
    } else {
        assert(w[0] < 0x80);
    }
    if b.len() > 55 {
        assert(w[0] == (0xb7 + rlp_size(b.len()).len()) as u8);
    } else if b.len() != 1 || b[0] >= 0x80 {
        assert(w[0] == (0x80 + b.len()) as u8);
    } else {
        assert(w[0] < 0x80);
    }
    if a.len() == 1 && a[0] < 0x80 {
        assert(a =~= w.take(1));
        assert(b =~= w.take(1));
    } else if a.len() <= 55 {
        assert(b.len() == a.len());
        let n = a.len() as int;
        assert(a =~= w.subrange(1, 1 + n));
        assert(b =~= w.subrange(1, 1 + n));
    } else {
        assert(b.len() > 55);
        let n = a.len() as int;
        let k = rlp_size(a.len()).len() as int;
        assert(rlp_size(b.len()).len() == k);
        assert(rlp_size(a.len()) =~= w.subrange(1, 1 + k));
        assert(rlp_size(b.len()) =~= w.subrange(1, 1 + k));
        assert(a.len() == b.len());
        assert(a =~= w.subrange(1 + k, 1 + k + n));
        assert(b =~= w.subrange(1 + k, 1 + k + n));
    }
}

proof fn lemma_size_field_len(len: nat)
    ensures
        rlp_size(len).len() <= 4,
{
    reveal_with_fuel(minimal_be, 5);
}

/// The RLP form of a byte string determines the string.
pub proof fn law_rlp_bytes_injective(a: Seq<u8>, b: Seq<u8>)
    requires
        rlp_bytes(a) == rlp_bytes(b),
    ensures
        a == b,
{
    let w = rlp_bytes(a);
    let v = rlp_bytes(b);
    lemma_size_field_len(a.len());
    lemma_size_field_len(b.len());
    let ka = rlp_size(a.len()).len() as int;
    let kb = rlp_size(b.len()).len() as int;
    if a.len() > 55 {
        assert(w[0] == (0xb7 + ka) as u8);
        assert(w.len() == 1 + ka + a.len());
    } else if a.len() != 1 || a[0] >= 0x80 {
        assert(w[0] == (0x80 + a.len()) as u8);
        assert(w.len() == 1 + a.len());
    } else {
        assert(w[0] < 0x80);
    }
    if b.len() > 55 {
        assert(v[0] == (0xb7 + kb) as u8);
        assert(v.len() == 1 + kb + b.len());
    } else if b.len() != 1 || b[0] >= 0x80 {
        assert(v[0] == (0x80 + b.len()) as u8);
        assert(v.len() == 1 + b.len());
    } else {
        assert(v[0] < 0x80);
    }
    assert(a.len() == b.len());
    let n = a.len() as int;
    assert(a =~= w.skip(w.len() - n));
    assert(b =~= w.skip(w.len() - n));
}

/// The RLP form of a list determines what the list holds.
pub proof fn law_rlp_list_injective(p: Seq<u8>, q: Seq<u8>)
    requires
        rlp_list(p) == rlp_list(q),
    ensures
        p == q,
{
    let w = rlp_list(p);
    let v = rlp_list(q);
    lemma_size_field_len(p.len());
    lemma_size_field_len(q.len());
    let kp = rlp_size(p.len()).len() as int;
    let kq = rlp_size(q.len()).len() as int;
    if p.len() > 55 {
        assert(w[0] == (0xf7 + kp) as u8);
        assert(w.len() == 1 + kp + p.len());
    } else {
        assert(w[0] == (0xc0 + p.len()) as u8);
        assert(w.len() == 1 + p.len());
    }
    if q.len() > 55 {
        assert(v[0] == (0xf7 + kq) as u8);
        assert(v.len() == 1 + kq + q.len());
    } else {
        assert(v[0] == (0xc0 + q.len()) as u8);
        assert(v.len() == 1 + q.len());
    }
    assert(p.len() == q.len());
    let n = p.len() as int;
    assert(p =~= w.skip(w.len() - n));
    assert(q =~= w.skip(w.len() - n));
}

/// The RLP forms of the fields.
pub open spec fn rlp_forms(fields: Seq<Seq<u8>>) -> Seq<Seq<u8>> {
    fields.map_values(|f: Seq<u8>| rlp_bytes(f))
}

proof fn lemma_concat_split(a: Seq<Seq<u8>>, b: Seq<Seq<u8>>)
    ensures
        concat(a + b) == concat(a) + concat(b),
    decreases b.len(),
{
    if b.len() == 0 {
        assert(a + b =~= a);
        assert(concat(a) + Seq::<u8>::empty() =~= concat(a));
    } else {
        lemma_concat_split(a, b.drop_last());
        assert((a + b).drop_last() =~= a + b.drop_last());
        assert(concat(a) + (concat(b.drop_last()) + b.last()) =~= concat(a) + concat(
            b.drop_last(),
        ) + b.last());
    }
}

proof fn lemma_concat_one(b: Seq<u8>)
    ensures
        concat(seq![b]) == b,
{
    reveal_with_fuel(concat, 2);
    assert(seq![b].drop_last() =~= Seq::<Seq<u8>>::empty());
    assert(Seq::<u8>::empty() + b =~= b);
}

/// Fields one after the other in RLP form can be told apart again.
pub proof fn law_rlp_fields_injective(
    a: Seq<Seq<u8>>,
    b: Seq<Seq<u8>>,
    x: Seq<u8>,
    y: Seq<u8>,
)
    requires
        a.len() == b.len(),
        forall|i: int| 0 <= i < a.len() ==> (#[trigger] a[i]).len() < 0x1_0000_0000,
        forall|i: int| 0 <= i < b.len() ==> (#[trigger] b[i]).len() < 0x1_0000_0000,
        concat(rlp_forms(a)) + x == concat(rlp_forms(b)) + y,
    ensures
        a == b,
        x == y,
    decreases a.len(),
{
    if a.len() == 0 {
        assert(concat(rlp_forms(a)) + x =~= x);
        assert(concat(rlp_forms(b)) + y =~= y);
        assert(a =~= b);
    } else {
        let ra = a.skip(1);
        let rb = b.skip(1);
        assert(rlp_forms(a) =~= seq![rlp_bytes(a[0])] + rlp_forms(ra));
        assert(rlp_forms(b) =~= seq![rlp_bytes(b[0])] + rlp_forms(rb));
        lemma_concat_split(seq![rlp_bytes(a[0])], rlp_forms(ra));
        lemma_concat_split(seq![rlp_bytes(b[0])], rlp_forms(rb));
        lemma_concat_one(rlp_bytes(a[0]));
        lemma_concat_one(rlp_bytes(b[0]));
        let xa = concat(rlp_forms(ra)) + x;
        let yb = concat(rlp_forms(rb)) + y;
        assert(concat(rlp_forms(a)) + x =~= rlp_bytes(a[0]) + xa);
        assert(concat(rlp_forms(b)) + y =~= rlp_bytes(b[0]) + yb);
        law_rlp_bytes_self_delimiting(a[0], b[0], xa, yb);
        assert forall|i: int| 0 <= i < ra.len() implies (#[trigger] ra[i]).len()
            < 0x1_0000_0000 by {
            assert(ra[i] == a[i + 1]);
        }
        assert forall|i: int| 0 <= i < rb.len() implies (#[trigger] rb[i]).len()
            < 0x1_0000_0000 by {
            assert(rb[i] == b[i + 1]);
        }
        law_rlp_fields_injective(ra, rb, x, y);
        assert forall|i: int| 0 <= i < a.len() implies a[i] == b[i] by {
            if i > 0 {
                assert(a[i] == ra[i - 1]);
                assert(b[i] == rb[i - 1]);
            }
        }
        assert(a =~= b);
    }
}

/// The fields of a transaction before its data, as byte strings.
pub open spec fn short_fields(tx: TxModel) -> Seq<Seq<u8>> {
    seq![
        minimal_be(tx.chain_id),
        minimal_be(tx.nonce),
        minimal_be(tx.max_priority_fee),
        minimal_be(tx.max_fee),
        minimal_be(tx.gas_limit),
        tx.to,
        minimal_be(tx.value),
    ]
}

/// What an `Eip1559Tx` can hold.
pub open spec fn tx_in_range(tx: TxModel) -> bool {
    &&& tx.chain_id <= u64::MAX
    &&& tx.nonce <= u64::MAX
    &&& tx.max_priority_fee <= u128::MAX
    &&& tx.max_fee <= u128::MAX
    &&& tx.gas_limit <= u64::MAX
    &&& tx.to.len() == 20
    &&& tx.value <= u128::MAX
}

proof fn lemma_amount_len(v: nat)
    requires
        v <= u128::MAX,
    ensures
        minimal_be(v).len() <= 16,
{
    reveal_with_fuel(minimal_be, 17);
}

proof fn lemma_short_fields(tx: TxModel)
    requires
        tx_in_range(tx),
    ensures
        forall|i: int|
            0 <= i < short_fields(tx).len() ==> (#[trigger] short_fields(tx)[i]).len()
                < 0x1_0000_0000,
        concat(base_items(tx)) == concat(rlp_forms(short_fields(tx))) + (rlp_bytes(tx.data)
            + rlp_list(Seq::empty())),
{
    lemma_amount_len(tx.chain_id);
    lemma_amount_len(tx.nonce);
    lemma_amount_len(tx.max_priority_fee);
    lemma_amount_len(tx.max_fee);
    lemma_amount_len(tx.gas_limit);
    lemma_amount_len(tx.value);
    let tail = seq![rlp_bytes(tx.data), rlp_list(Seq::empty())];
    assert(base_items(tx) =~= rlp_forms(short_fields(tx)) + tail);
    lemma_concat_split(rlp_forms(short_fields(tx)), tail);
    assert(tail.drop_last() =~= seq![rlp_bytes(tx.data)]);
    lemma_concat_one(rlp_bytes(tx.data));
}

proof fn lemma_same_amount(a: nat, b: nat)
    requires
        minimal_be(a) == minimal_be(b),
    ensures
        a == b,
{
    lemma_minimal_be(a);
    lemma_minimal_be(b);
}

proof fn lemma_same_tx(a: TxModel, b: TxModel)
    requires
        short_fields(a) == short_fields(b),
        a.data == b.data,
    ensures
        a == b,
{
    let fa = short_fields(a);
    let fb = short_fields(b);
    assert(fa[0] == fb[0] && fa[1] == fb[1] && fa[2] == fb[2] && fa[3] == fb[3]);
    assert(fa[4] == fb[4] && fa[5] == fb[5] && fa[6] == fb[6]);
    lemma_same_amount(a.chain_id, b.chain_id);
    lemma_same_amount(a.nonce, b.nonce);
    lemma_same_amount(a.max_priority_fee, b.max_priority_fee);
    lemma_same_amount(a.max_fee, b.max_fee);
    lemma_same_amount(a.gas_limit, b.gas_limit);
    lemma_same_amount(a.value, b.value);
}

/// What is hashed and signed is of type 2 and determines the whole transaction: no two transactions
/// have the same payload.
pub proof fn law_payload_determines_tx(a: TxModel, b: TxModel)
    requires
        tx_in_range(a),
        tx_in_range(b),
        unsigned_payload(a) == unsigned_payload(b),
    ensures
        a == b,
        unsigned_payload(a)[0] == 2,
{
    let pa = concat(base_items(a));
    let pb = concat(base_items(b));
    assert(unsigned_payload(a).skip(1) =~= rlp_list(pa));
    assert(unsigned_payload(b).skip(1) =~= rlp_list(pb));
    law_rlp_list_injective(pa, pb);
    lemma_short_fields(a);
    lemma_short_fields(b);
    let xa = rlp_bytes(a.data) + rlp_list(Seq::empty());
    let xb = rlp_bytes(b.data) + rlp_list(Seq::empty());
    law_rlp_fields_injective(short_fields(a), short_fields(b), xa, xb);
    assert(rlp_bytes(a.data) =~= xa.take(xa.len() - 1));
    assert(rlp_bytes(b.data) =~= xb.take(xb.len() - 1));
    law_rlp_bytes_injective(a.data, b.data);
    lemma_same_tx(a, b);
}

proof fn lemma_trimmed_word(w: Seq<u8>)
    requires
        w.len() == 32,
    ensures
        without_leading_zeros(w).len() <= 32,
        be_bytes(be_value(without_leading_zeros(w)), 32) == w,
{
    lemma_trimming_keeps_value(w);
    lemma_bytes_round_trip(w);
}

/// A signature as byte strings without leading zeros.
pub open spec fn signature_fields(parity: nat, r: Seq<u8>, s: Seq<u8>) -> Seq<Seq<u8>> {
    seq![minimal_be(parity), without_leading_zeros(r), without_leading_zeros(s)]
}

proof fn lemma_raw_form(tx: TxModel, parity: nat, r: Seq<u8>, s: Seq<u8>)
    requires
        tx_in_range(tx),
    ensures
        signed_payload(tx, parity, r, s)[0] == 2,
        signed_payload(tx, parity, r, s).skip(1) == rlp_list(
            concat(rlp_forms(short_fields(tx))) + (rlp_bytes(tx.data) + (rlp_list(Seq::empty())
                + concat(rlp_forms(signature_fields(parity, r, s))))),
        ),
{
    let sig = rlp_forms(signature_fields(parity, r, s));
    assert(sig =~= seq![
        rlp_bytes(minimal_be(parity)),
        rlp_bytes(without_leading_zeros(r)),
        rlp_bytes(without_leading_zeros(s)),
    ]);
    let items = base_items(tx) + sig;
    assert(signed_payload(tx, parity, r, s) == seq![2u8] + rlp_list(concat(items)));
    assert(signed_payload(tx, parity, r, s).skip(1) =~= rlp_list(concat(items)));
    lemma_concat_split(base_items(tx), sig);
    lemma_short_fields(tx);
    let front = concat(rlp_forms(short_fields(tx)));
    let data = rlp_bytes(tx.data);
    let none = rlp_list(Seq::empty());
    assert((front + (data + none)) + concat(sig) =~= front + (data + (none + concat(sig))));
}

proof fn lemma_same_signature(
    pa: nat,
    ra: Seq<u8>,
    sa: Seq<u8>,
    pb: nat,
    rb: Seq<u8>,
    sb: Seq<u8>,
)
    requires
        pa < 2,
        pb < 2,
        ra.len() == 32,
        sa.len() == 32,
        rb.len() == 32,
        sb.len() == 32,
        concat(rlp_forms(signature_fields(pa, ra, sa))) == concat(
            rlp_forms(signature_fields(pb, rb, sb)),
        ),
    ensures
        pa == pb,
        ra == rb,
        sa == sb,
{
    let siga = signature_fields(pa, ra, sa);
    let sigb = signature_fields(pb, rb, sb);
    let e = Seq::<u8>::empty();
    lemma_amount_len(pa);
    lemma_amount_len(pb);
    lemma_trimmed_word(ra);
    lemma_trimmed_word(sa);
    lemma_trimmed_word(rb);
    lemma_trimmed_word(sb);
    law_rlp_fields_injective(siga, sigb, e, e);
    assert(siga[0] == sigb[0] && siga[1] == sigb[1] && siga[2] == sigb[2]);
    lemma_same_amount(pa, pb);
}

/// The raw signed transaction is of type 2 and determines the transaction and the signature, for
/// data whose length fits RLP's 32-bit length field.
pub proof fn law_raw_determines_tx(
    a: TxModel,
    pa: nat,
    ra: Seq<u8>,
    sa: Seq<u8>,
    b: TxModel,
    pb: nat,
    rb: Seq<u8>,
    sb: Seq<u8>,
)
    requires
        tx_in_range(a),
        tx_in_range(b),
        a.data.len() < 0x1_0000_0000,
        b.data.len() < 0x1_0000_0000,
        pa < 2,
        pb < 2,
        ra.len() == 32,
        sa.len() == 32,
        rb.len() == 32,
        sb.len() == 32,
        signed_payload(a, pa, ra, sa) == signed_payload(b, pb, rb, sb),
    ensures
        a == b,
        pa == pb,
        ra == rb,
        sa == sb,
        signed_payload(a, pa, ra, sa)[0] == 2,
{
    lemma_raw_form(a, pa, ra, sa);
    lemma_raw_form(b, pb, rb, sb);
    let none = rlp_list(Seq::empty());
    let ca = concat(rlp_forms(signature_fields(pa, ra, sa)));
    let cb = concat(rlp_forms(signature_fields(pb, rb, sb)));
    let xa = rlp_bytes(a.data) + (none + ca);
    let xb = rlp_bytes(b.data) + (none + cb);
    law_rlp_list_injective(
        concat(rlp_forms(short_fields(a))) + xa,
        concat(rlp_forms(short_fields(b))) + xb,
    );
    lemma_short_fields(a);
    lemma_short_fields(b);
    law_rlp_fields_injective(short_fields(a), short_fields(b), xa, xb);
    law_rlp_bytes_self_delimiting(a.data, b.data, none + ca, none + cb);
    lemma_same_tx(a, b);
    assert(ca =~= (none + ca).skip(none.len() as int));
    assert(cb =~= (none + cb).skip(none.len() as int));
    lemma_same_signature(pa, ra, sa, pb, rb, sb);
}

// ---- reading RLP ----------------------------------------------------------------------

/// Where the content of the RLP item at the front of `w` begins, and how long it is, as the item's
/// first bytes say.
pub open spec fn rlp_extent(w: Seq<u8>) -> (int, int) {
    let b = w[0] as int;
    if b < 0x80 {
        (0, 1)
    } else if b <= 0xb7 {
        (1, b - 0x80)
    } else if b < 0xc0 {
        (1 + (b - 0xb7), be_value(w.subrange(1, 1 + (b - 0xb7))) as int)
    } else if b <= 0xf7 {
        (1, b - 0xc0)
    } else {
        (1 + (b - 0xf7), be_value(w.subrange(1, 1 + (b - 0xf7))) as int)
    }
}

/// The content of the RLP item at the front of `w`.
pub open spec fn rlp_content(w: Seq<u8>) -> Seq<u8> {
    w.subrange(rlp_extent(w).0, rlp_extent(w).0 + rlp_extent(w).1)
}

/// What stands behind the RLP item at the front of `w`.
pub open spec fn rlp_behind(w: Seq<u8>) -> Seq<u8> {
    w.skip(rlp_extent(w).0 + rlp_extent(w).1)
}

/// `w` from its `i`th RLP item on.
pub open spec fn rlp_from(w: Seq<u8>, i: nat) -> Seq<u8>
    decreases i,
{
    if i == 0 {
        w
    } else {
        rlp_behind(rlp_from(w, (i - 1) as nat))
    }
}

/// Is the `i`th RLP item of `w` the byte string `b`?
pub open spec fn has_bytes(w: Seq<u8>, i: nat, b: Seq<u8>) -> bool {
    let item = rlp_from(w, i);
    item.len() > 0 && item[0] < 0xc0 && rlp_content(item) == b
}

/// Is the `i`th RLP item of `w` the number `n`, as its shortest byte string?
pub open spec fn has_number(w: Seq<u8>, i: nat, n: nat) -> bool {
    let item = rlp_from(w, i);
    &&& item.len() > 0
    &&& item[0] < 0xc0
    &&& be_value(rlp_content(item)) == n
    &&& rlp_content(item).len() > 0 ==> rlp_content(item)[0] != 0
}

/// Is the `i`th RLP item of `w` the list without items?
pub open spec fn has_empty_list(w: Seq<u8>, i: nat) -> bool {
    let item = rlp_from(w, i);
    item.len() > 0 && item[0] == 0xc0
}

proof fn lemma_bytes_read(b: Seq<u8>, x: Seq<u8>)
    requires
        b.len() < 0x1_0000_0000,
    ensures
        (rlp_bytes(b) + x).len() > 0,
        (rlp_bytes(b) + x)[0] < 0xc0,
        rlp_content(rlp_bytes(b) + x) == b,
        rlp_behind(rlp_bytes(b) + x) == x,
{
    let w = rlp_bytes(b) + x;
    let n = b.len() as int;
    if b.len() == 1 && b[0] < 0x80 {
        assert(w[0] == b[0]);
        assert(w.subrange(0, 1) =~= b);
        assert(w.skip(1) =~= x);
    } else if b.len() <= 55 {
        assert(w[0] == (0x80 + b.len()) as u8);
        assert(w.subrange(1, 1 + n) =~= b);
        assert(w.skip(1 + n) =~= x);
    } else {
        lemma_size_field(b.len());
        let size = rlp_size(b.len());
        let k = size.len() as int;
        assert(w[0] == (0xb7 + k) as u8);
        assert(w.subrange(1, 1 + k) =~= size);
        assert(w.subrange(1 + k, 1 + k + n) =~= b);
        assert(w.skip(1 + k + n) =~= x);
    }
}

proof fn lemma_list_read(p: Seq<u8>, x: Seq<u8>)
    requires
        p.len() < 0x1_0000_0000,
    ensures
        (rlp_list(p) + x).len() > 0,
        (rlp_list(p) + x)[0] >= 0xc0,
        p.len() == 0 ==> (rlp_list(p) + x)[0] == 0xc0,
        rlp_content(rlp_list(p) + x) == p,
        rlp_behind(rlp_list(p) + x) == x,
{
    let w = rlp_list(p) + x;
    let n = p.len() as int;
    if p.len() <= 55 {
        assert(w[0] == (0xc0 + p.len()) as u8);
        assert(w.subrange(1, 1 + n) =~= p);
        assert(w.skip(1 + n) =~= x);
    } else {
        lemma_size_field(p.len());
        let size = rlp_size(p.len());
        let k = size.len() as int;
        assert(w[0] == (0xf7 + k) as u8);
        assert(w.subrange(1, 1 + k) =~= size);
        assert(w.subrange(1 + k, 1 + k + n) =~= p);
        assert(w.skip(1 + k + n) =~= x);
    }
}

proof fn lemma_from_next(w: Seq<u8>, i: nat)
    requires
        i > 0,
    ensures
        rlp_from(w, i) == rlp_from(rlp_behind(w), (i - 1) as nat),
    decreases i,
{
    if i > 1 {
        lemma_from_next(w, (i - 1) as nat);
    } else {
        assert(rlp_from(w, 0) == w);
        assert(rlp_from(rlp_behind(w), 0) == rlp_behind(w));
    }
}

proof fn lemma_fields_read(fields: Seq<Seq<u8>>, x: Seq<u8>, i: nat)
    requires
        forall|k: int| 0 <= k < fields.len() ==> (#[trigger] fields[k]).len() < 0x1_0000_0000,
        i <= fields.len(),
    ensures
        ({
            let w = concat(rlp_forms(fields)) + x;
            &&& i < fields.len() ==> has_bytes(w, i, fields[i as int])
            &&& i == fields.len() ==> rlp_from(w, i) == x
        }),
    decreases fields.len(),
{
    let w = concat(rlp_forms(fields)) + x;
    if fields.len() == 0 {
        assert(w =~= x);
    } else {
        let f = fields[0];
        let others = fields.skip(1);
        let y = concat(rlp_forms(others)) + x;
        assert(rlp_forms(fields) =~= seq![rlp_bytes(f)] + rlp_forms(others));
        lemma_concat_split(seq![rlp_bytes(f)], rlp_forms(others));
        lemma_concat_one(rlp_bytes(f));
        assert(w =~= rlp_bytes(f) + y);
        lemma_bytes_read(f, y);
        if i > 0 {
            assert forall|k: int| 0 <= k < others.len() implies (#[trigger] others[k]).len()
                < 0x1_0000_0000 by {
                assert(others[k] == fields[k + 1]);
            }
            lemma_fields_read(others, x, (i - 1) as nat);
            lemma_from_next(w, i);
            if i < fields.len() {
                assert(others[i - 1] == fields[i as int]);
            }
        }
    }
}

proof fn lemma_from_add(w: Seq<u8>, i: nat, k: nat)
    ensures
        rlp_from(w, i + k) == rlp_from(rlp_from(w, i), k),
    decreases k,
{
    if k > 0 {
        lemma_from_add(w, i, (k - 1) as nat);
    }
}

/// Do the first nine RLP items of `w` spell the transaction: chain id, nonce, priority fee, fee cap,
/// gas limit, receiver, value, data, and an access list without entries, in this order?
pub open spec fn spells_tx(w: Seq<u8>, tx: TxModel) -> bool {
    &&& has_number(w, 0, tx.chain_id)
    &&& has_number(w, 1, tx.nonce)
    &&& has_number(w, 2, tx.max_priority_fee)
    &&& has_number(w, 3, tx.max_fee)
    &&& has_number(w, 4, tx.gas_limit)
    &&& has_bytes(w, 5, tx.to)
    &&& has_number(w, 6, tx.value)
    &&& has_bytes(w, 7, tx.data)
    &&& has_empty_list(w, 8)
}

proof fn lemma_number_read(w: Seq<u8>, i: nat, n: nat)
    requires
        has_bytes(w, i, minimal_be(n)),
    ensures
        has_number(w, i, n),
{
    lemma_minimal_be(n);
}

proof fn lemma_tx_read(tx: TxModel, x: Seq<u8>)
    requires
        tx_in_range(tx),
        tx.data.len() < 0x1_0000_0000,
    ensures
        spells_tx(concat(base_items(tx)) + x, tx),
        rlp_from(concat(base_items(tx)) + x, 9) == x,
{
    lemma_short_fields(tx);
    let fields = short_fields(tx).push(tx.data);
    assert(rlp_forms(fields) =~= rlp_forms(short_fields(tx)) + seq![rlp_bytes(tx.data)]);
    lemma_concat_split(rlp_forms(short_fields(tx)), seq![rlp_bytes(tx.data)]);
    lemma_concat_one(rlp_bytes(tx.data));
    let none = rlp_list(Seq::empty());
    let w = concat(base_items(tx)) + x;
    assert(w =~= concat(rlp_forms(fields)) + (none + x));
    assert forall|k: int| 0 <= k < fields.len() implies (#[trigger] fields[k]).len()
        < 0x1_0000_0000 by {
        if k < 7 {
            assert(fields[k] == short_fields(tx)[k]);
        }
    }
    lemma_fields_read(fields, none + x, 0);
    lemma_fields_read(fields, none + x, 1);
    lemma_fields_read(fields, none + x, 2);
    lemma_fields_read(fields, none + x, 3);
    lemma_fields_read(fields, none + x, 4);
    lemma_fields_read(fields, none + x, 5);
    lemma_fields_read(fields, none + x, 6);
    lemma_fields_read(fields, none + x, 7);
    lemma_fields_read(fields, none + x, 8);
    lemma_number_read(w, 0, tx.chain_id);
    lemma_number_read(w, 1, tx.nonce);
    lemma_number_read(w, 2, tx.max_priority_fee);
    lemma_number_read(w, 3, tx.max_fee);
    lemma_number_read(w, 4, tx.gas_limit);
    lemma_number_read(w, 6, tx.value);
    lemma_list_read(Seq::empty(), x);
    lemma_from_add(w, 8, 1);
    reveal_with_fuel(rlp_from, 2);
}

/// What is hashed and signed is the type byte and one RLP list of nine items, and these are the
/// transaction's chain id, nonce, priority fee, fee cap, gas limit, receiver, value and data, each in
/// its place, and an empty access list. (RLP's length field has 32 bits, so this is so for payloads
/// that it can count.)
pub proof fn law_payload_fields(tx: TxModel)
    requires
        tx_in_range(tx),
        unsigned_payload(tx).len() < 0x1_0000_0000,
    ensures
        unsigned_payload(tx)[0] == 2,
        unsigned_payload(tx)[1] >= 0xc0,
        rlp_behind(unsigned_payload(tx).skip(1)).len() == 0,
        spells_tx(rlp_content(unsigned_payload(tx).skip(1)), tx),
        rlp_from(rlp_content(unsigned_payload(tx).skip(1)), 9).len() == 0,
{
    let e = Seq::<u8>::empty();
    let p = concat(base_items(tx));
    let list = rlp_list(p);
    assert(unsigned_payload(tx).skip(1) =~= list);
    assert(list + e =~= list);
    lemma_short_fields(tx);
    assert(p.len() >= rlp_bytes(tx.data).len());
    assert(p.len() <= list.len());
    lemma_list_read(p, e);
    lemma_tx_read(tx, e);
    assert(p + e =~= p);
    assert(unsigned_payload(tx)[1] == list[0]);
}

/// A signed transaction is the type byte and one RLP list of twelve items: the nine that were hashed,
/// each in its place, then the parity, `r` and `s` of the signature that the key gives for the
/// Keccak digest of what `law_payload_fields` describes.
pub proof fn law_signed_fields(tx: TxModel, key: Seq<u8>)
    requires
        tx_in_range(tx),
    ensures
        match signed_tx(tx, key) {
            Ok(raw) => match signature_of(key, keccak_digest(unsigned_payload(tx))) {
                Some((id, r, s)) => r.len() == 32 && s.len() == 32 && raw.len() < 0x1_0000_0000 ==> {
                    let w = rlp_content(raw.skip(1));
                    &&& raw[0] == 2
                    &&& raw[1] >= 0xc0
                    &&& rlp_behind(raw.skip(1)).len() == 0
                    &&& spells_tx(w, tx)
                    &&& has_number(w, 9, id as nat % 2)
                    &&& has_number(w, 10, be_value(r))
                    &&& has_number(w, 11, be_value(s))
                    &&& rlp_from(w, 12).len() == 0
                },
                None => false,
            },
            Err(_) => signature_of(key, keccak_digest(unsigned_payload(tx))) is None,
        },
{
    if let Some((id, r, s)) = signature_of(key, tx_hash(tx)) {
        let raw = signed_tx(tx, key)->Ok_0;
        if r.len() == 32 && s.len() == 32 && raw.len() < 0x1_0000_0000 {
            let e = Seq::<u8>::empty();
            let parity = id as nat % 2;
            let sig = signature_fields(parity, r, s);
            let x = concat(rlp_forms(sig));
            assert(rlp_forms(sig) =~= seq![
                rlp_bytes(minimal_be(parity)),
                rlp_bytes(without_leading_zeros(r)),
                rlp_bytes(without_leading_zeros(s)),
            ]);
            lemma_concat_split(base_items(tx), rlp_forms(sig));
            let p = concat(base_items(tx)) + x;
            let list = rlp_list(p);
            assert(raw =~= seq![2u8] + list);
            assert(raw.skip(1) =~= list);
            assert(list + e =~= list);
            assert(raw[1] == list[0]);
            lemma_short_fields(tx);
            assert(p.len() <= list.len());
            lemma_list_read(p, e);
            assert(concat(base_items(tx)).len() >= rlp_bytes(tx.data).len());
            lemma_tx_read(tx, x);
            lemma_amount_len(parity);
            lemma_trimming_keeps_value(r);
            lemma_trimming_keeps_value(s);
            lemma_fields_read(sig, e, 0);
            lemma_fields_read(sig, e, 1);
            lemma_fields_read(sig, e, 2);
            lemma_fields_read(sig, e, 3);
            assert(x + e =~= x);
            lemma_from_add(p, 9, 0);
            lemma_from_add(p, 9, 1);
            lemma_from_add(p, 9, 2);
            lemma_from_add(p, 9, 3);
            lemma_number_read(p, 9, parity);
        }
    }
}

/// The address of a key is the last 20 bytes of the Keccak digest of its public point's two
/// coordinates, without the byte in front of them.
pub proof fn law_address(key: Seq<u8>, coordinates: Seq<u8>)
    requires
        public_point(key) == seq![4u8] + coordinates,
        keccak_digest(coordinates).len() == 32,
    ensures
        address_of(key).len() == 20,
        forall|i: int| 0 <= i < 20 ==> address_of(key)[i] == keccak_digest(coordinates)[12 + i],
{
    assert(public_point(key).skip(1) =~= coordinates);
}

/// A private key is what its text spells in hexadecimal: 32 bytes, which are a number from one up to
/// the group order. Any other text is refused.
pub proof fn law_key_read(text: Seq<char>)
    ensures
        match (secret_in(text), hex_bytes(trimmed(text))) {
            (Ok(key), Ok(b)) => key == b && b.len() == 32 && 0 < be_value(b) < curve_order(),
            (Ok(_), Err(_)) => false,
            (Err(e), Ok(b)) => if b.len() != 32 {
                e == "private key must be 32 bytes, got "@ + decimal_text(b.len())
            } else {
                &&& be_value(b) == 0 || be_value(b) >= curve_order()
                &&& e == "invalid private key: signature error"@
            },
            (Err(e), Err(why)) => e == why,
        },
{
    assert("invalid private key: "@ + "signature error"@
        =~= "invalid private key: signature error"@) by {
        reveal_strlit("invalid private key: ");
        reveal_strlit("signature error");
        reveal_strlit("invalid private key: signature error");
    }
}

/// A transaction stands for what its own fields hold.
pub proof fn law_tx_view(tx: Eip1559Tx)
    ensures
        tx@.chain_id == tx.chain_id,
        tx@.nonce == tx.nonce,
        tx@.max_priority_fee == tx.max_priority_fee,
        tx@.max_fee == tx.max_fee,
        tx@.gas_limit == tx.gas_limit,
        tx@.to == tx.to@,
        tx@.value == tx.value,
        tx@.data == tx.data@,
        tx_in_range(tx@),
{
}

} // verus!
