//! A small, exact ABI encoder, and the hexadecimal text of byte strings.

use vstd::arithmetic::power::pow;
use vstd::prelude::*;
use vstd::slice::slice_to_vec;
use vstd::string::*;
use vstd::utf8::{
    encode_utf8, encode_utf8_decode_utf8, is_ascii_chars, is_ascii_chars_encode_utf8,
};

use crate::bytes::{
    array20, array32, be_bytes, be_value, be_vec, extend, left_pad32, left_padded, word, zeros,
};
use crate::keccak::{selector, selector_of};
use crate::text::{
    decimal, decimal_text, digit_char, has_0x, hex_digit, numeral, quoted, quoted_char,
    quoted_char_text, quoted_text, strip_0x, without_0x,
};

verus! {

// ---- values ---------------------------------------------------------------------------

/// One ABI value.
#[derive(Debug)]
pub enum Val {
    /// Unsigned integer, given as big-endian bytes (any width up to 32).
    Uint(Vec<u8>),
    Address([u8; 20]),
    Bool(bool),
    FixedBytes32([u8; 32]),
    Bytes(Vec<u8>),
    Str(String),
    /// A struct: encoded in place if all components are static, behind an offset otherwise.
    Tuple(Vec<Val>),
}

/// What a `Val` holds.
pub enum AbiValue {
    Uint(Seq<u8>),
    Address(Seq<u8>),
    Bool(bool),
    FixedBytes32(Seq<u8>),
    Bytes(Seq<u8>),
    Str(Seq<char>),
    Tuple(Seq<AbiValue>),
}

/// What one value holds.
pub open spec fn val_model(v: Val) -> AbiValue
    decreases v,
{
    match v {
        Val::Uint(b) => AbiValue::Uint(b@),
        Val::Address(a) => AbiValue::Address(a@),
        Val::Bool(b) => AbiValue::Bool(b),
        Val::FixedBytes32(b) => AbiValue::FixedBytes32(b@),
        Val::Bytes(b) => AbiValue::Bytes(b@),
        Val::Str(s) => AbiValue::Str(s@),
        Val::Tuple(items) => AbiValue::Tuple(val_models(items@)),
    }
}

/// What each of `items` holds.
pub open spec fn val_models(items: Seq<Val>) -> Seq<AbiValue>
    decreases items,
{
    Seq::new(
        items.len(),
        |i: int|
            if 0 <= i < items.len() {
                val_model(items[i])
            } else {
                arbitrary()
            },
    )
}

impl View for Val {
    type V = AbiValue;

    open spec fn view(&self) -> AbiValue {
        val_model(*self)
    }
}

impl Clone for Val {
    fn clone(&self) -> (r: Val)
        ensures
            r@ == self@,
        decreases *self,
    {
        match self {
            Val::Uint(b) => Val::Uint(slice_to_vec(b.as_slice())),
            Val::Address(a) => Val::Address(*a),
            Val::Bool(b) => Val::Bool(*b),
            Val::FixedBytes32(b) => Val::FixedBytes32(*b),
            Val::Bytes(b) => Val::Bytes(slice_to_vec(b.as_slice())),
            Val::Str(s) => Val::Str(s.clone()),
            Val::Tuple(items) => {
                let mut copies: Vec<Val> = Vec::new();
                let mut i: usize = 0;
                while i < items.len()
                    invariant
                        i <= items.len(),
                        *self == Val::Tuple(*items),
                        copies@.len() == i,
                        forall|k: int|
                            0 <= k < i ==> val_model(#[trigger] copies@[k]) == val_model(items@[k]),
                    decreases items.len() - i,
                {
                    assert(decreases_to!(*self => self->Tuple_0));
                    assert(decreases_to!(*self => self->Tuple_0[i as int]));
                    copies.push(items[i].clone());
                    i += 1;
                }
                assert(val_models(copies@) =~= val_models(items@));
                Val::Tuple(copies)
            },
        }
    }
}

/// An integer has at most 32 bytes, an address 20, a fixed word 32.
pub open spec fn well_formed(v: AbiValue) -> bool
    decreases v,
{
    match v {
        AbiValue::Uint(be) => be.len() <= 32,
        AbiValue::Address(a) => a.len() == 20,
        AbiValue::FixedBytes32(b) => b.len() == 32,
        AbiValue::Tuple(items) => all_well_formed(items),
        _ => true,
    }
}

/// Every one of `items` is well formed.
pub open spec fn all_well_formed(items: Seq<AbiValue>) -> bool
    decreases items,
{
    forall|i: int| 0 <= i < items.len() ==> well_formed(#[trigger] items[i])
}

// ---- the encoding ---------------------------------------------------------------------

/// Has `v` an encoding whose length depends on what it holds?
pub open spec fn dynamic(v: AbiValue) -> bool
    decreases v,
{
    match v {
        AbiValue::Bytes(_) | AbiValue::Str(_) => true,
        AbiValue::Tuple(items) => exists|i: int|
            0 <= i < items.len() && dynamic(#[trigger] items[i]),
        _ => false,
    }
}

/// `b` behind its length, with zero bytes up to a multiple of 32.
pub open spec fn length_prefixed(b: Seq<u8>) -> Seq<u8> {
    be_bytes(b.len(), 32) + b + zeros(((32 - b.len() % 32) % 32) as nat)
}

/// The full encoding of one value.
pub open spec fn value_encoding(v: AbiValue) -> Seq<u8>
    decreases v, 0nat, 0nat,
{
    match v {
        AbiValue::Uint(be) => left_padded(be, 32),
        AbiValue::Address(a) => left_padded(a, 32),
        AbiValue::Bool(b) => be_bytes(
            if b {
                1
            } else {
                0
            },
            32,
        ),
        AbiValue::FixedBytes32(b) => b,
        AbiValue::Bytes(b) => length_prefixed(b),
        AbiValue::Str(s) => length_prefixed(encode_utf8(s)),
        AbiValue::Tuple(items) => list_encoding(items),
    }
}

/// How many bytes the heads of the first `n` items take: a dynamic one has a 32-byte offset in the
/// head region, a static one its encoding.
pub open spec fn head_size(items: Seq<AbiValue>, n: nat) -> nat
    decreases items, 1nat, n,
{
    if n == 0 || n > items.len() {
        0
    } else {
        let last = items[n - 1];
        head_size(items, (n - 1) as nat) + if dynamic(last) {
            32
        } else {
            value_encoding(last).len()
        }
    }
}

/// The tail region of the first `n` items: the encodings of the dynamic ones, in order.
pub open spec fn tails(items: Seq<AbiValue>, n: nat) -> Seq<u8>
    decreases items, 1nat, n,
{
    if n == 0 || n > items.len() {
        Seq::empty()
    } else {
        let last = items[n - 1];
        tails(items, (n - 1) as nat) + if dynamic(last) {
            value_encoding(last)
        } else {
            Seq::empty()
        }
    }
}

/// The head region of the first `n` items: where the encoding of a dynamic one stands, counted
/// from the start of the heads, and the encoding of a static one itself.
pub open spec fn heads(items: Seq<AbiValue>, n: nat) -> Seq<u8>
    decreases items, 2nat, n,
{
    if n == 0 || n > items.len() {
        Seq::empty()
    } else {
        let last = items[n - 1];
        heads(items, (n - 1) as nat) + if dynamic(last) {
            be_bytes(head_size(items, items.len()) + tails(items, (n - 1) as nat).len(), 32)
        } else {
            value_encoding(last)
        }
    }
}

/// The encoding of an ordered list of values: all heads, then all tails.
pub open spec fn list_encoding(items: Seq<AbiValue>) -> Seq<u8>
    decreases items, 3nat, 0nat,
{
    heads(items, items.len()) + tails(items, items.len())
}

/// The calldata of a function with the given signature, applied to `args`.
pub open spec fn call_data(signature: Seq<char>, args: Seq<AbiValue>) -> Seq<u8> {
    selector_of(signature) + list_encoding(args)
}

impl Val {
    /// `uint256`/`uint64`/... from a big-endian slice (leading zeros allowed).
    pub fn uint_be(be: &[u8]) -> (r: Result<Val, String>)
        ensures
            match r {
                Ok(v) => be@.len() <= 32 && v@ == AbiValue::Uint(be@),
                Err(e) => be@.len() > 32 && e@ == "uint too wide: "@ + decimal_text(be@.len())
                    + " bytes"@,
            },
    {
        if be.len() > 32 {
            let mut e = "uint too wide: ".to_owned();
            e.append(decimal(be.len() as u128).as_str());
            e.append(" bytes");
            return Err(e);
        }
        Ok(Val::Uint(slice_to_vec(be)))
    }

    /// An integer, in sixteen bytes.
    pub fn uint_u128(v: u128) -> (r: Val)
        ensures
            r@ == AbiValue::Uint(be_bytes(v as nat, 16)),
    {
        Val::Uint(be_vec(v, 16))
    }
}

fn is_dynamic(v: &Val) -> (r: bool)
    ensures
        r == dynamic(v@),
    decreases *v,
{
    match v {
        Val::Bytes(_) | Val::Str(_) => true,
        Val::Tuple(items) => {
            assert(v@ == AbiValue::Tuple(val_models(items@)));
            let mut i: usize = 0;
            while i < items.len()
                invariant
                    i <= items.len(),
                    *v == Val::Tuple(*items),
                    v@ == AbiValue::Tuple(val_models(items@)),
                    forall|k: int| 0 <= k < i ==> !dynamic(#[trigger] val_models(items@)[k]),
                decreases items.len() - i,
            {
                assert(decreases_to!(*v => v->Tuple_0));
                assert(decreases_to!(*v => v->Tuple_0[i as int]));
                if is_dynamic(&items[i]) {
                    assert(dynamic(v@->Tuple_0[i as int]));
                    return true;
                }
                assert(val_models(items@)[i as int] == items@[i as int]@);
                i += 1;
            }
            assert(!dynamic(v@));
            false
        },
        _ => false,
    }
}

fn enc_bytes(bytes: &[u8]) -> (out: Vec<u8>)
    ensures
        out@ == length_prefixed(bytes@),
{
    let mut out = slice_to_vec(word(bytes.len() as u128).as_slice());
    extend(&mut out, bytes);
    let pad: usize = (32 - (bytes.len() % 32)) % 32;
    let ghost body = out@;
    let mut i: usize = 0;
    assert(body + zeros(0) =~= body);
    while i < pad
        invariant
            i <= pad,
            out@ == body + zeros(i as nat),
        decreases pad - i,
    {
        out.push(0u8);
        i += 1;
        assert(out@ =~= body + zeros(i as nat));
    }
    out
}

/// Full encoding of a single value (its "tail" form).
fn enc(v: &Val) -> (out: Vec<u8>)
    requires
        well_formed(v@),
    ensures
        out@ == value_encoding(v@),
    decreases *v,
{
    match v {
        Val::Uint(be) => slice_to_vec(left_pad32(be.as_slice()).as_slice()),
        Val::Address(a) => slice_to_vec(left_pad32(a.as_slice()).as_slice()),
        Val::Bool(b) => slice_to_vec(word(if *b { 1 } else { 0 }).as_slice()),
        Val::FixedBytes32(b) => slice_to_vec(b.as_slice()),
        Val::Bytes(b) => enc_bytes(b.as_slice()),
        Val::Str(s) => enc_bytes(s.as_str().as_bytes()),
        Val::Tuple(items) => {
            assert(decreases_to!(*v => v->Tuple_0));
            assert(decreases_to!(*v => v->Tuple_0@));
            encode(items.as_slice())
        },
    }
}

/// Encode an ordered list of values as an ABI head/tail region (also the encoding of a tuple).
pub fn encode(items: &[Val]) -> (out: Vec<u8>)
    requires
        all_well_formed(val_models(items@)),
    ensures
        out@ == list_encoding(val_models(items@)),
    decreases items@,
{
    let ghost ms = val_models(items@);
    let n: usize = items.len();
    let mut head_len: u128 = 0;
    let mut i: usize = 0;
    while i < n
        invariant
            i <= n,
            n == items@.len(),
            ms == val_models(items@),
            all_well_formed(ms),
            head_len == head_size(ms, i as nat),
            head_len <= i * 0xffff_ffff_ffff_ffff,
        decreases n - i,
    {
        assert(ms[i as int] == items@[i as int]@);
        assert(decreases_to!(items@ => items@[i as int]));
        if is_dynamic(&items[i]) {
            head_len = head_len + 32;
        } else {
            head_len = head_len + enc(&items[i]).len() as u128;
        }
        i += 1;
    }

    let mut head: Vec<u8> = Vec::new();
    let mut tail: Vec<u8> = Vec::new();
    i = 0;
    while i < n
        invariant
            i <= n,
            n == items@.len(),
            ms == val_models(items@),
            all_well_formed(ms),
            head_len == head_size(ms, n as nat),
            head_len <= n * 0xffff_ffff_ffff_ffff,
            head@ == heads(ms, i as nat),
            tail@ == tails(ms, i as nat),
        decreases n - i,
    {
        assert(ms[i as int] == items@[i as int]@);
        assert(decreases_to!(items@ => items@[i as int]));
        if is_dynamic(&items[i]) {
            let offset: u128 = head_len + tail.len() as u128;
            extend(&mut head, word(offset).as_slice());
            extend(&mut tail, enc(&items[i]).as_slice());
        } else {
            extend(&mut head, enc(&items[i]).as_slice());
            assert(tails(ms, (i + 1) as nat) =~= tail@);
        }
        i += 1;
    }
    extend(&mut head, tail.as_slice());
    head
}

/// `selector(signature)` followed by the ABI encoding of `args`.
pub fn call(signature: &str, args: &[Val]) -> (out: Vec<u8>)
    requires
        all_well_formed(val_models(args@)),
    ensures
        out@ == call_data(signature@, val_models(args@)),
{
    let mut out = slice_to_vec(selector(signature).as_slice());
    extend(&mut out, encode(args).as_slice());
    out
}

// ---- hexadecimal text -----------------------------------------------------------------

/// Why a text is not the hexadecimal form of a byte string.
#[derive(Debug)]
pub enum HexError {
    InvalidHexCharacter { c: char, index: usize },
    OddLength,
    InvalidStringLength,
}

/// Where the first byte of `b` that is no hexadecimal digit stands; `b.len()` if all are.
pub open spec fn first_non_hex(b: Seq<u8>) -> int
    decreases b.len(),
{
    if b.len() == 0 || hex_digit(b[0] as char) is None {
        0
    } else {
        first_non_hex(b.skip(1)) + 1
    }
}

/// The bytes that the digits `b` spell, two digits each.
pub open spec fn hex_decoded(b: Seq<u8>) -> Seq<u8> {
    Seq::new(
        b.len() / 2,
        |i: int|
            (hex_digit(b[2 * i] as char)->0 * 16 + hex_digit(b[2 * i + 1] as char)->0) as u8,
    )
}

/// Two lower-case digits for each byte of `b`.
pub open spec fn hex_encoded(b: Seq<u8>) -> Seq<char> {
    Seq::new(
        2 * b.len(),
        |i: int|
            digit_char(
                if i % 2 == 0 {
                    b[i / 2] as nat / 16
                } else {
                    b[i / 2] as nat % 16
                },
            ),
    )
}

/// `hex::decode`. It works on the UTF-8 bytes of `s`, whose number must be even and each of which
/// must be a digit of either case; otherwise it reports the odd number, or the first byte that is
/// no digit, as the character of that code.
#[verifier::external_body]
fn hex_decode(s: &str) -> (r: Result<Vec<u8>, HexError>)
    ensures
        ({
            let b = encode_utf8(s@);
            match r {
                Ok(v) => b.len() % 2 == 0 && first_non_hex(b) == b.len() && v@ == hex_decoded(b),
                Err(HexError::InvalidHexCharacter { c, index }) => b.len() % 2 == 0
                    && first_non_hex(b) < b.len() && index == first_non_hex(b) && c
                    == b[index as int] as char,
                Err(HexError::OddLength) => b.len() % 2 != 0,
                Err(HexError::InvalidStringLength) => false,
            }
        }),
{
    match hex::decode(s) {
        Ok(v) => Ok(v),
        Err(hex::FromHexError::InvalidHexCharacter { c, index }) => {
            Err(HexError::InvalidHexCharacter { c, index })
        },
        Err(hex::FromHexError::OddLength) => Err(HexError::OddLength),
        Err(hex::FromHexError::InvalidStringLength) => Err(HexError::InvalidStringLength),
    }
}

/// `hex::encode`: two lower-case digits for each byte.
#[verifier::external_body]
fn hex_encode(bytes: &[u8]) -> (r: String)
    ensures
        r@ == hex_encoded(bytes@),
{
    hex::encode(bytes)
}

/// The text of a hexadecimal error.
pub open spec fn hex_error_text(e: HexError) -> Seq<char> {
    match e {
        HexError::InvalidHexCharacter { c, index } => "Invalid character "@ + quoted_char_text(c)
            + " at position "@ + decimal_text(index as nat),
        HexError::OddLength => "Odd number of digits"@,
        HexError::InvalidStringLength => "Invalid string length"@,
    }
}

impl HexError {
    /// What went wrong, in words.
    pub fn message(&self) -> (r: String)
        ensures
            r@ == hex_error_text(*self),
    {
        match self {
            HexError::InvalidHexCharacter { c, index } => {
                let mut e = "Invalid character ".to_owned();
                e.append(quoted_char(*c).as_str());
                e.append(" at position ");
                e.append(decimal(*index as u128).as_str());
                e
            },
            HexError::OddLength => "Odd number of digits".to_owned(),
            HexError::InvalidStringLength => "Invalid string length".to_owned(),
        }
    }
}

/// The complaint about the digits `digits`.
pub open spec fn bad_hex(digits: Seq<char>, why: Seq<char>) -> Seq<char> {
    "bad hex "@ + quoted_text(digits) + ": "@ + why
}

/// The bytes that `s` spells in hexadecimal, with or without a leading `0x`.
pub open spec fn hex_bytes(s: Seq<char>) -> Result<Seq<u8>, Seq<char>> {
    let digits = without_0x(s);
    let b = encode_utf8(digits);
    if b.len() % 2 != 0 {
        Err(bad_hex(digits, "Odd number of digits"@))
    } else if first_non_hex(b) < b.len() {
        let at = first_non_hex(b);
        Err(
            bad_hex(
                digits,
                "Invalid character "@ + quoted_char_text(b[at] as char) + " at position "@
                    + decimal_text(at as nat),
            ),
        )
    } else {
        Ok(hex_decoded(b))
    }
}

/// The bytes of the number that `s` spells as a JSON-RPC quantity: hexadecimal with or without a
/// leading `0x`, and with as many digits as the number takes, so that their count may be odd. What is
/// wrong with any other text is said of the text itself.
pub open spec fn quantity_bytes(s: Seq<char>) -> Result<Seq<u8>, Seq<char>> {
    let digits = without_0x(s);
    if digits.len() % 2 == 1 {
        match hex_bytes("0x0"@ + digits) {
            Ok(b) => Ok(b),
            Err(_) => hex_bytes(s),
        }
    } else {
        hex_bytes(s)
    }
}

/// The `n`-byte value that `s` spells; any other length is an error, worded by `what`.
pub open spec fn hex_array(s: Seq<char>, n: nat, what: Seq<char>) -> Result<Seq<u8>, Seq<char>> {
    match hex_bytes(s) {
        Ok(b) => if b.len() == n {
            Ok(b)
        } else {
            Err("expected "@ + what + ", got "@ + decimal_text(b.len()) + " bytes"@)
        },
        Err(e) => Err(e),
    }
}

/// The address that `s` spells.
pub open spec fn hex_address(s: Seq<char>) -> Result<Seq<u8>, Seq<char>> {
    hex_array(s, 20, "20-byte address"@)
}

/// The 32-byte word that `s` spells.
pub open spec fn hex_word(s: Seq<char>) -> Result<Seq<u8>, Seq<char>> {
    hex_array(s, 32, "32 bytes"@)
}

/// `0x` and the hexadecimal digits of `b`.
pub open spec fn hex_0x(b: Seq<u8>) -> Seq<char> {
    "0x"@ + hex_encoded(b)
}

/// The bytes that `s` spells in hexadecimal, with or without a leading `0x`.
pub fn hex_to_bytes(s: &str) -> (r: Result<Vec<u8>, String>)
    ensures
        match r {
            Ok(v) => hex_bytes(s@) == Ok::<Seq<u8>, Seq<char>>(v@),
            Err(e) => hex_bytes(s@) == Err::<Seq<u8>, Seq<char>>(e@),
        },
{
    let digits = strip_0x(s);
    match hex_decode(digits) {
        Ok(v) => Ok(v),
        Err(why) => {
            let mut e = "bad hex ".to_owned();
            e.append(quoted(digits).as_str());
            e.append(": ");
            e.append(why.message().as_str());
            Err(e)
        },
    }
}

/// The bytes of the number that `s` spells as a JSON-RPC quantity.
pub fn quantity_to_bytes(s: &str) -> (r: Result<Vec<u8>, String>)
    ensures
        match r {
            Ok(v) => quantity_bytes(s@) == Ok::<Seq<u8>, Seq<char>>(v@),
            Err(e) => quantity_bytes(s@) == Err::<Seq<u8>, Seq<char>>(e@),
        },
{
    let digits = strip_0x(s);
    if digits.unicode_len() % 2 == 1 {
        let mut even = "0x0".to_owned();
        even.append(digits);
        match hex_to_bytes(even.as_str()) {
            Ok(b) => Ok(b),
            Err(_) => hex_to_bytes(s),
        }
    } else {
        hex_to_bytes(s)
    }
}

fn wrong_length(what: &str, got: usize) -> (e: String)
    ensures
        e@ == "expected "@ + what@ + ", got "@ + decimal_text(got as nat) + " bytes"@,
{
    let mut e = "expected ".to_owned();
    e.append(what);
    e.append(", got ");
    e.append(decimal(got as u128).as_str());
    e.append(" bytes");
    e
}

/// The address that `s` spells.
pub fn hex_to_array20(s: &str) -> (r: Result<[u8; 20], String>)
    ensures
        match r {
            Ok(a) => hex_address(s@) == Ok::<Seq<u8>, Seq<char>>(a@),
            Err(e) => hex_address(s@) == Err::<Seq<u8>, Seq<char>>(e@),
        },
{
    match hex_to_bytes(s) {
        Ok(b) => if b.len() == 20 {
            Ok(array20(b.as_slice()))
        } else {
            Err(wrong_length("20-byte address", b.len()))
        },
        Err(e) => Err(e),
    }
}

/// The 32-byte word that `s` spells.
pub fn hex_to_array32(s: &str) -> (r: Result<[u8; 32], String>)
    ensures
        match r {
            Ok(a) => hex_word(s@) == Ok::<Seq<u8>, Seq<char>>(a@),
            Err(e) => hex_word(s@) == Err::<Seq<u8>, Seq<char>>(e@),
        },
{
    match hex_to_bytes(s) {
        Ok(b) => if b.len() == 32 {
            Ok(array32(b.as_slice()))
        } else {
            Err(wrong_length("32 bytes", b.len()))
        },
        Err(e) => Err(e),
    }
}

/// `0x` and the hexadecimal digits of `bytes`.
pub fn to_hex_0x(bytes: &[u8]) -> (r: String)
    ensures
        r@ == hex_0x(bytes@),
{
    let mut r = "0x".to_owned();
    r.append(hex_encode(bytes).as_str());
    r
}

// ---- laws -----------------------------------------------------------------------------

/// The head region has the size that the offsets count on.
proof fn lemma_heads_len(items: Seq<AbiValue>, n: nat)
    requires
        n <= items.len(),
    ensures
        heads(items, n).len() == head_size(items, n),
    decreases n,
{
    if n > 0 {
        lemma_heads_len(items, (n - 1) as nat);
        crate::bytes::lemma_be_bytes_len(
            head_size(items, items.len()) + tails(items, (n - 1) as nat).len(),
            32,
        );
    }
}

/// Bytes survive the way to hexadecimal text and back.
pub proof fn law_hex_round_trip(b: Seq<u8>)
    ensures
        hex_bytes(hex_0x(b)) == Ok::<Seq<u8>, Seq<char>>(b),
{
    reveal_strlit("0x");
    let s = hex_0x(b);
    let digits = without_0x(s);
    assert(digits =~= hex_encoded(b));
    assert(is_ascii_chars(digits));
    is_ascii_chars_encode_utf8(digits);
    let e = encode_utf8(digits);
    assert(e.len() == 2 * b.len());
    assert forall|i: int| 0 <= i < e.len() implies #[trigger] hex_digit(e[i] as char) == Some(
        if i % 2 == 0 {
            b[i / 2] as nat / 16
        } else {
            b[i / 2] as nat % 16
        },
    ) by {
        assert(e[i] == digits[i] as u8);
    }
    lemma_all_hex(e);
    assert(hex_decoded(e) =~= b) by {
        assert forall|i: int| 0 <= i < b.len() implies hex_decoded(e)[i] == b[i] by {
            assert(hex_digit(e[2 * i] as char) == Some(b[i] as nat / 16));
            assert(hex_digit(e[2 * i + 1] as char) == Some(b[i] as nat % 16));
        }
    }
}

/// A leading `0x` is optional.
pub proof fn law_prefix_optional(digits: Seq<char>)
    requires
        !has_0x(digits),
    ensures
        hex_bytes("0x"@ + digits) == hex_bytes(digits),
{
    reveal_strlit("0x");
    assert(without_0x("0x"@ + digits) =~= digits);
}

/// The number that hexadecimal digits spell.
pub open spec fn digits_value(d: Seq<char>) -> nat
    decreases d.len(),
{
    if d.len() == 0 {
        0
    } else {
        digits_value(d.drop_last()) * 16 + hex_digit(d.last())->0
    }
}

/// Are all of the characters hexadecimal digits?
pub open spec fn all_digits(d: Seq<char>) -> bool {
    forall|i: int| 0 <= i < d.len() ==> #[trigger] hex_digit(d[i]) is Some
}

proof fn lemma_digit_bytes(d: Seq<char>)
    requires
        all_digits(d),
    ensures
        encode_utf8(d).len() == d.len(),
        forall|i: int| 0 <= i < d.len() ==> #[trigger] encode_utf8(d)[i] as char == d[i],
        first_non_hex(encode_utf8(d)) == d.len(),
{
    assert forall|i: int| 0 <= i < d.len() implies '\0' <= #[trigger] d[i] <= '\u{7f}' by {
        assert(hex_digit(d[i]) is Some);
    }
    assert(is_ascii_chars(d));
    is_ascii_chars_encode_utf8(d);
    let e = encode_utf8(d);
    assert forall|i: int| 0 <= i < d.len() implies #[trigger] e[i] as char == d[i] by {
        assert(e[i] == d[i] as u8);
        assert('\0' <= d[i] <= '\u{7f}');
    }
    assert forall|i: int| 0 <= i < e.len() implies #[trigger] hex_digit(e[i] as char) is Some by {
        assert(e[i] as char == d[i]);
        assert(hex_digit(d[i]) is Some);
    }
    lemma_all_hex(e);
}

proof fn lemma_decoded_value(d: Seq<char>)
    requires
        all_digits(d),
        d.len() % 2 == 0,
    ensures
        be_value(hex_decoded(encode_utf8(d))) == digits_value(d),
    decreases d.len(),
{
    lemma_digit_bytes(d);
    let b = hex_decoded(encode_utf8(d));
    if d.len() > 0 {
        let n = d.len() as int;
        let front = d.take(n - 2);
        assert forall|i: int| 0 <= i < front.len() implies #[trigger] hex_digit(front[i]) is Some by {
            assert(hex_digit(d[i]) is Some);
        }
        lemma_digit_bytes(front);
        lemma_decoded_value(front);
        let e = encode_utf8(d);
        let f = encode_utf8(front);
        assert forall|i: int| 0 <= i < hex_decoded(f).len() implies b.drop_last()[i]
            == hex_decoded(f)[i] by {
            assert(e[2 * i] as char == d[2 * i] && f[2 * i] as char == front[2 * i]);
            assert(e[2 * i + 1] as char == d[2 * i + 1] && f[2 * i + 1] as char == front[2 * i
                + 1]);
        }
        assert(b.drop_last() =~= hex_decoded(f));
        let high = hex_digit(d[n - 2])->0;
        let low = hex_digit(d[n - 1])->0;
        assert(hex_digit(d[n - 2]) is Some && hex_digit(d[n - 1]) is Some);
        assert(e[n - 2] as char == d[n - 2] && e[n - 1] as char == d[n - 1]);
        assert(2 * (b.len() - 1) == n - 2);
        assert(b.last() == (high * 16 + low) as u8);
        let init = d.drop_last();
        assert(init.drop_last() =~= front);
        assert(digits_value(init) == digits_value(front) * 16 + high);
    }
}

proof fn lemma_leading_zero_digit(d: Seq<char>)
    requires
        all_digits(d),
    ensures
        all_digits(seq!['0'] + d),
        digits_value(seq!['0'] + d) == digits_value(d),
    decreases d.len(),
{
    let z = seq!['0'] + d;
    assert forall|i: int| 0 <= i < z.len() implies #[trigger] hex_digit(z[i]) is Some by {
        if i > 0 {
            assert(hex_digit(d[i - 1]) is Some);
        }
    }
    if d.len() > 0 {
        let front = d.drop_last();
        assert forall|i: int| 0 <= i < front.len() implies #[trigger] hex_digit(front[i]) is Some by {
            assert(hex_digit(d[i]) is Some);
        }
        lemma_leading_zero_digit(front);
        assert(z.drop_last() =~= seq!['0'] + front);
    } else {
        assert(z.drop_last() =~= Seq::<char>::empty());
        assert(digits_value(Seq::<char>::empty()) == 0);
    }
}

/// A JSON-RPC quantity is read as the number that its digits spell, however many there are.
pub proof fn law_quantity(digits: Seq<char>)
    requires
        all_digits(digits),
    ensures
        match quantity_bytes("0x"@ + digits) {
            Ok(b) => be_value(b) == digits_value(digits),
            Err(_) => false,
        },
{
    reveal_strlit("0x");
    reveal_strlit("0x0");
    assert(without_0x("0x"@ + digits) =~= digits);
    if digits.len() % 2 == 1 {
        let even = seq!['0'] + digits;
        lemma_leading_zero_digit(digits);
        assert(without_0x("0x0"@ + digits) =~= even);
        lemma_digit_bytes(even);
        lemma_decoded_value(even);
    } else {
        lemma_digit_bytes(digits);
        lemma_decoded_value(digits);
    }
}

proof fn lemma_hex_throughout(b: Seq<u8>)
    requires
        first_non_hex(b) >= b.len(),
    ensures
        forall|i: int| 0 <= i < b.len() ==> #[trigger] hex_digit(b[i] as char) is Some,
    decreases b.len(),
{
    if b.len() > 0 {
        lemma_hex_throughout(b.skip(1));
        assert forall|i: int| 0 <= i < b.len() implies #[trigger] hex_digit(b[i] as char) is Some by {
            if i > 0 {
                assert(b[i] == b.skip(1)[i - 1]);
            }
        }
    }
}

proof fn lemma_bytes_are_digits(d: Seq<char>)
    requires
        first_non_hex(encode_utf8(d)) >= encode_utf8(d).len(),
    ensures
        all_digits(d),
{
    let b = encode_utf8(d);
    lemma_hex_throughout(b);
    let c = Seq::new(b.len(), |i: int| b[i] as char);
    assert forall|i: int| 0 <= i < c.len() implies '\0' <= #[trigger] c[i] <= '\u{7f}' by {
        assert(hex_digit(b[i] as char) is Some);
    }
    assert(is_ascii_chars(c));
    is_ascii_chars_encode_utf8(c);
    assert(encode_utf8(c) =~= b);
    encode_utf8_decode_utf8(c);
    encode_utf8_decode_utf8(d);
    assert(c == d);
    assert forall|i: int| 0 <= i < d.len() implies #[trigger] hex_digit(d[i]) is Some by {
        assert(hex_digit(b[i] as char) is Some);
    }
}

/// What is not a JSON-RPC quantity is refused, in words about the very digits that were given.
pub proof fn law_quantity_refused(s: Seq<char>)
    requires
        !all_digits(without_0x(s)),
    ensures
        quantity_bytes(s) is Err,
        quantity_bytes(s) == hex_bytes(s),
{
    reveal_strlit("0x0");
    let digits = without_0x(s);
    if first_non_hex(encode_utf8(digits)) >= encode_utf8(digits).len() {
        lemma_bytes_are_digits(digits);
    }
    let even = without_0x("0x0"@ + digits);
    assert(even =~= seq!['0'] + digits);
    if first_non_hex(encode_utf8(even)) >= encode_utf8(even).len() {
        lemma_bytes_are_digits(even);
        assert forall|i: int| 0 <= i < digits.len() implies #[trigger] hex_digit(
            digits[i],
        ) is Some by {
            assert(digits[i] == even[i + 1]);
        }
    }
}

/// The digits of a number spell it.
pub proof fn lemma_numeral_value(n: nat)
    ensures
        all_digits(numeral(n, 16)),
        digits_value(numeral(n, 16)) == n,
    decreases n,
{
    let c = digit_char(n % 16);
    assert(hex_digit(c) == Some(n % 16));
    let d = numeral(n, 16);
    if n < 16 {
        assert(d =~= seq![c]);
        assert(d.drop_last() =~= Seq::<char>::empty());
        assert(digits_value(Seq::<char>::empty()) == 0);
    } else {
        let head = numeral(n / 16, 16);
        lemma_numeral_value(n / 16);
        assert(d.drop_last() =~= head);
        assert forall|i: int| 0 <= i < d.len() implies #[trigger] hex_digit(d[i]) is Some by {
            if i < head.len() {
                assert(d[i] == head[i]);
                assert(hex_digit(head[i]) is Some);
            }
        }
    }
}

proof fn lemma_all_hex(b: Seq<u8>)
    requires
        forall|i: int| 0 <= i < b.len() ==> #[trigger] hex_digit(b[i] as char) is Some,
    ensures
        first_non_hex(b) == b.len(),
    decreases b.len(),
{
    if b.len() > 0 {
        assert(hex_digit(b[0] as char) is Some);
        assert forall|i: int| 0 <= i < b.skip(1).len() implies #[trigger] hex_digit(
            b.skip(1)[i] as char,
        ) is Some by {
            assert(hex_digit(b[i + 1] as char) is Some);
        }
        lemma_all_hex(b.skip(1));
    }
}

// ---- laws of the encoding -------------------------------------------------------------

proof fn lemma_heads_prefix(items: Seq<AbiValue>, i: nat, n: nat)
    requires
        i <= n <= items.len(),
    ensures
        heads(items, i).is_prefix_of(heads(items, n)),
    decreases n - i,
{
    if i < n {
        lemma_heads_prefix(items, i, (n - 1) as nat);
    }
}

proof fn lemma_tails_prefix(items: Seq<AbiValue>, i: nat, n: nat)
    requires
        i <= n <= items.len(),
    ensures
        tails(items, i).is_prefix_of(tails(items, n)),
    decreases n - i,
{
    if i < n {
        lemma_tails_prefix(items, i, (n - 1) as nat);
    }
}

/// Where the encoding of the `i`th item stands in that of the list: a static item at its place among
/// the heads, a dynamic one in the tail region.
pub open spec fn item_start(items: Seq<AbiValue>, i: nat) -> nat {
    if dynamic(items[i as int]) {
        head_size(items, items.len()) + tails(items, i).len()
    } else {
        head_size(items, i)
    }
}

/// The layout rule. The full encoding of every item can be read from the encoding of the list at the
/// item's start. For a dynamic item, that start is what its 32-byte head says.
pub proof fn law_layout(items: Seq<AbiValue>, i: nat)
    requires
        i < items.len(),
    ensures
        ({
            let e = list_encoding(items);
            let one = value_encoding(items[i as int]);
            let start = item_start(items, i) as int;
            let head = head_size(items, i) as int;
            &&& start + one.len() <= e.len()
            &&& e.subrange(start, start + one.len()) == one
            &&& dynamic(items[i as int]) ==> head + 32 <= e.len() && e.subrange(head, head + 32)
                == be_bytes(start as nat, 32)
        }),
{
    let n = items.len();
    let e = list_encoding(items);
    let one = value_encoding(items[i as int]);
    lemma_heads_len(items, n);
    lemma_heads_len(items, i);
    lemma_heads_len(items, i + 1);
    lemma_heads_prefix(items, i + 1, n);
    lemma_tails_prefix(items, i + 1, n);
    let head = head_size(items, i) as int;
    let hs = heads(items, n);
    let part = heads(items, i + 1);
    assert(part =~= hs.take(part.len() as int));
    if dynamic(items[i as int]) {
        let start = item_start(items, i) as int;
        let word = be_bytes(start as nat, 32);
        crate::bytes::lemma_be_bytes_len(start as nat, 32);
        assert(part == heads(items, i) + word);
        assert(word =~= part.subrange(head, head + 32));
        assert(word =~= e.subrange(head, head + 32));
        let ts = tails(items, n);
        let cut = tails(items, i + 1);
        assert(cut =~= ts.take(cut.len() as int));
        let before = tails(items, i).len() as int;
        assert(one =~= cut.subrange(before, before + one.len()));
        assert(one =~= e.subrange(start, start + one.len()));
    } else {
        assert(part == heads(items, i) + one);
        assert(one =~= part.subrange(head, head + one.len()));
        assert(one =~= e.subrange(head, head + one.len()));
    }
}

proof fn lemma_value_aligned(v: AbiValue)
    requires
        well_formed(v),
    ensures
        value_encoding(v).len() % 32 == 0,
    decreases v, 0nat,
{
    match v {
        AbiValue::Bool(b) => {
            crate::bytes::lemma_be_bytes_len(
                if b {
                    1
                } else {
                    0
                },
                32,
            );
        },
        AbiValue::Bytes(b) => {
            crate::bytes::lemma_be_bytes_len(b.len(), 32);
        },
        AbiValue::Str(s) => {
            crate::bytes::lemma_be_bytes_len(encode_utf8(s).len(), 32);
        },
        AbiValue::Tuple(items) => {
            law_aligned(items);
        },
        _ => {},
    }
}

proof fn lemma_heads_aligned(items: Seq<AbiValue>, n: nat)
    requires
        n <= items.len(),
        all_well_formed(items),
    ensures
        head_size(items, n) % 32 == 0,
        tails(items, n).len() % 32 == 0,
    decreases items, n,
{
    if n > 0 {
        lemma_heads_aligned(items, (n - 1) as nat);
        assert(well_formed(items[n - 1]));
        assert(decreases_to!(items => items[n - 1]));
        lemma_value_aligned(items[n - 1]);
    }
}

/// Every encoding is a whole number of 32-byte words.
pub proof fn law_aligned(items: Seq<AbiValue>)
    requires
        all_well_formed(items),
    ensures
        list_encoding(items).len() % 32 == 0,
    decreases items, items.len() + 1,
{
    lemma_heads_aligned(items, items.len());
    lemma_heads_len(items, items.len());
}

/// Have the two values the same type?
pub open spec fn same_type(a: AbiValue, b: AbiValue) -> bool
    decreases a,
{
    match (a, b) {
        (AbiValue::Uint(_), AbiValue::Uint(_)) => true,
        (AbiValue::Address(_), AbiValue::Address(_)) => true,
        (AbiValue::Bool(_), AbiValue::Bool(_)) => true,
        (AbiValue::FixedBytes32(_), AbiValue::FixedBytes32(_)) => true,
        (AbiValue::Bytes(_), AbiValue::Bytes(_)) => true,
        (AbiValue::Str(_), AbiValue::Str(_)) => true,
        (AbiValue::Tuple(x), AbiValue::Tuple(y)) => same_types(x, y),
        _ => false,
    }
}

/// Have the two lists the same types, one by one?
pub open spec fn same_types(a: Seq<AbiValue>, b: Seq<AbiValue>) -> bool
    decreases a,
{
    a.len() == b.len() && forall|i: int|
        0 <= i < a.len() ==> same_type(#[trigger] a[i], b[i])
}

/// Do the two values mean the same? Integers do if they are the same number, whatever zero bytes
/// they are written with.
pub open spec fn same_meaning(a: AbiValue, b: AbiValue) -> bool
    decreases a,
{
    match (a, b) {
        (AbiValue::Uint(x), AbiValue::Uint(y)) => be_value(x) == be_value(y),
        (AbiValue::Tuple(x), AbiValue::Tuple(y)) => same_meanings(x, y),
        _ => a == b,
    }
}

/// Do the two lists mean the same, one by one?
pub open spec fn same_meanings(a: Seq<AbiValue>, b: Seq<AbiValue>) -> bool
    decreases a,
{
    a.len() == b.len() && forall|i: int|
        0 <= i < a.len() ==> same_meaning(#[trigger] a[i], b[i])
}

proof fn lemma_same_dynamic(a: AbiValue, b: AbiValue)
    requires
        same_type(a, b),
    ensures
        dynamic(a) == dynamic(b),
    decreases a,
{
    match (a, b) {
        (AbiValue::Tuple(x), AbiValue::Tuple(y)) => {
            assert forall|i: int| 0 <= i < x.len() implies dynamic(#[trigger] x[i]) == dynamic(
                y[i],
            ) by {
                assert(same_type(x[i], y[i]));
                lemma_same_dynamic(x[i], y[i]);
            }
            if dynamic(a) {
                let i = choose|i: int| 0 <= i < x.len() && dynamic(#[trigger] x[i]);
                assert(dynamic(y[i]));
            }
            if dynamic(b) {
                let i = choose|i: int| 0 <= i < y.len() && dynamic(#[trigger] y[i]);
                assert(dynamic(x[i]));
            }
        },
        _ => {},
    }
}

proof fn lemma_static_len(a: AbiValue, b: AbiValue)
    requires
        same_type(a, b),
        well_formed(a),
        well_formed(b),
        !dynamic(a),
    ensures
        value_encoding(a).len() == value_encoding(b).len(),
    decreases a, 0nat,
{
    lemma_same_dynamic(a, b);
    match (a, b) {
        (AbiValue::Bool(x), AbiValue::Bool(y)) => {
            crate::bytes::lemma_be_bytes_len(0, 32);
            crate::bytes::lemma_be_bytes_len(1, 32);
        },
        (AbiValue::Tuple(x), AbiValue::Tuple(y)) => {
            lemma_head_sizes(x, y, x.len());
            lemma_heads_len(x, x.len());
            lemma_heads_len(y, y.len());
            assert forall|i: int| 0 <= i < x.len() implies !dynamic(#[trigger] x[i]) by {}
            assert forall|i: int| 0 <= i < y.len() implies !dynamic(#[trigger] y[i]) by {}
            lemma_no_tails(x, x.len());
            lemma_no_tails(y, y.len());
        },
        _ => {},
    }
}

proof fn lemma_no_tails(items: Seq<AbiValue>, n: nat)
    requires
        n <= items.len(),
        forall|i: int| 0 <= i < items.len() ==> !dynamic(#[trigger] items[i]),
    ensures
        tails(items, n).len() == 0,
    decreases n,
{
    if n > 0 {
        lemma_no_tails(items, (n - 1) as nat);
    }
}

proof fn lemma_head_sizes(a: Seq<AbiValue>, b: Seq<AbiValue>, n: nat)
    requires
        same_types(a, b),
        all_well_formed(a),
        all_well_formed(b),
        n <= a.len(),
    ensures
        head_size(a, n) == head_size(b, n),
    decreases a, n,
{
    if n > 0 {
        lemma_head_sizes(a, b, (n - 1) as nat);
        assert(same_type(a[n - 1], b[n - 1]));
        assert(well_formed(a[n - 1]) && well_formed(b[n - 1]));
        assert(decreases_to!(a => a[n - 1]));
        lemma_same_dynamic(a[n - 1], b[n - 1]);
        if !dynamic(a[n - 1]) {
            lemma_static_len(a[n - 1], b[n - 1]);
        }
    }
}

proof fn lemma_same_parts(a: Seq<AbiValue>, b: Seq<AbiValue>, n: nat, i: nat)
    requires
        same_types(a, b),
        all_well_formed(a),
        all_well_formed(b),
        i < n <= a.len(),
        heads(a, n) == heads(b, n),
        tails(a, n) == tails(b, n),
        head_size(a, a.len()) + tails(a, n).len() < pow(256, 32),
    ensures
        value_encoding(a[i as int]) == value_encoding(b[i as int]),
        value_encoding(a[i as int]).len() <= heads(a, n).len() + tails(a, n).len(),
    decreases n,
{
    let m = (n - 1) as nat;
    lemma_head_sizes(a, b, m);
    lemma_head_sizes(a, b, a.len());
    lemma_heads_len(a, m);
    lemma_heads_len(b, m);
    assert(same_type(a[m as int], b[m as int]));
    lemma_same_dynamic(a[m as int], b[m as int]);
    let ha = heads(a, n);
    let cut = head_size(a, m) as int;
    assert(heads(a, m) =~= ha.take(cut));
    assert(heads(b, m) =~= ha.take(cut));
    if dynamic(a[m as int]) {
        let oa = head_size(a, a.len()) + tails(a, m).len();
        let ob = head_size(b, b.len()) + tails(b, m).len();
        assert(be_bytes(oa, 32) =~= ha.skip(cut));
        assert(be_bytes(ob, 32) =~= ha.skip(cut));
        assert(tails(a, n) == tails(a, m) + value_encoding(a[m as int]));
        assert(tails(b, n) == tails(b, m) + value_encoding(b[m as int]));
        crate::bytes::lemma_be_round_trip(oa, 32);
        crate::bytes::lemma_be_round_trip(ob, 32);
        let ta = tails(a, n);
        let split = tails(a, m).len() as int;
        assert(tails(a, m) =~= ta.take(split));
        assert(tails(b, m) =~= ta.take(split));
        assert(value_encoding(a[m as int]) =~= ta.skip(split));
        assert(value_encoding(b[m as int]) =~= ta.skip(split));
    } else {
        assert(value_encoding(a[m as int]) =~= ha.skip(cut));
        assert(value_encoding(b[m as int]) =~= ha.skip(cut));
        assert(tails(a, n) =~= tails(a, m));
        assert(tails(b, n) =~= tails(b, m));
    }
    if i < m {
        lemma_same_parts(a, b, m, i);
    }
}

proof fn lemma_length_prefixed(a: Seq<u8>, b: Seq<u8>)
    requires
        length_prefixed(a) == length_prefixed(b),
        length_prefixed(a).len() < pow(256, 32),
    ensures
        a == b,
{
    let e = length_prefixed(a);
    crate::bytes::lemma_be_bytes_len(a.len(), 32);
    crate::bytes::lemma_be_bytes_len(b.len(), 32);
    assert(be_bytes(a.len(), 32) =~= e.take(32));
    assert(be_bytes(b.len(), 32) =~= e.take(32));
    crate::bytes::lemma_be_round_trip(a.len(), 32);
    crate::bytes::lemma_be_round_trip(b.len(), 32);
    let n = a.len() as int;
    assert(a =~= e.subrange(32, 32 + n));
    assert(b =~= e.subrange(32, 32 + n));
}

proof fn lemma_value_injective(a: AbiValue, b: AbiValue)
    requires
        same_type(a, b),
        well_formed(a),
        well_formed(b),
        value_encoding(a) == value_encoding(b),
        value_encoding(a).len() < pow(256, 32),
    ensures
        same_meaning(a, b),
    decreases a, 0nat,
{
    match (a, b) {
        (AbiValue::Uint(x), AbiValue::Uint(y)) => {
            crate::bytes::lemma_padding_keeps_value((32 - x.len()) as nat, x);
            crate::bytes::lemma_padding_keeps_value((32 - y.len()) as nat, y);
        },
        (AbiValue::Address(x), AbiValue::Address(y)) => {
            let e = value_encoding(a);
            assert(x =~= e.skip(12));
            assert(y =~= e.skip(12));
        },
        (AbiValue::Bool(x), AbiValue::Bool(y)) => {
            assert(pow(256, 32) > 1) by {
                vstd::arithmetic::power::lemma_pow_adds(256, 1, 31);
                vstd::arithmetic::power::lemma_pow1(256);
                vstd::arithmetic::power::lemma_pow_positive(256, 31);
                assert(256 * pow(256, 31) > 1);
            }
            crate::bytes::lemma_be_round_trip(0, 32);
            crate::bytes::lemma_be_round_trip(1, 32);
        },
        (AbiValue::Bytes(x), AbiValue::Bytes(y)) => {
            lemma_length_prefixed(x, y);
        },
        (AbiValue::Str(x), AbiValue::Str(y)) => {
            lemma_length_prefixed(encode_utf8(x), encode_utf8(y));
            encode_utf8_decode_utf8(x);
            encode_utf8_decode_utf8(y);
        },
        (AbiValue::Tuple(x), AbiValue::Tuple(y)) => {
            law_encoding_injective(x, y);
        },
        _ => {},
    }
}

/// The encoding loses nothing: two lists of values of the same types have the same encoding only if
/// they mean the same. (Lengths and offsets are 32-byte integers, so this is so for encodings of
/// fewer than 256^32 bytes.)
pub proof fn law_encoding_injective(a: Seq<AbiValue>, b: Seq<AbiValue>)
    requires
        same_types(a, b),
        all_well_formed(a),
        all_well_formed(b),
        list_encoding(a) == list_encoding(b),
        list_encoding(a).len() < pow(256, 32),
    ensures
        same_meanings(a, b),
    decreases a, 1nat,
{
    let n = a.len();
    let e = list_encoding(a);
    lemma_head_sizes(a, b, n);
    lemma_heads_len(a, n);
    lemma_heads_len(b, n);
    let cut = head_size(a, n) as int;
    assert(heads(a, n) =~= e.take(cut));
    assert(heads(b, n) =~= e.take(cut));
    assert(tails(a, n) =~= e.skip(cut));
    assert(tails(b, n) =~= e.skip(cut));
    assert forall|i: int| 0 <= i < a.len() implies same_meaning(#[trigger] a[i], b[i]) by {
        lemma_same_parts(a, b, n, i as nat);
        assert(same_type(a[i], b[i]));
        assert(well_formed(a[i]) && well_formed(b[i]));
        lemma_value_injective(a[i], b[i]);
    }
}

proof fn lemma_same_word(x: Seq<u8>, y: Seq<u8>)
    requires
        x.len() <= 32,
        y.len() <= 32,
        be_value(x) == be_value(y),
    ensures
        left_padded(x, 32) == left_padded(y, 32),
{
    crate::bytes::lemma_padding_keeps_value((32 - x.len()) as nat, x);
    crate::bytes::lemma_padding_keeps_value((32 - y.len()) as nat, y);
    crate::bytes::lemma_bytes_round_trip(left_padded(x, 32));
    crate::bytes::lemma_bytes_round_trip(left_padded(y, 32));
}

proof fn lemma_value_by_meaning(a: AbiValue, b: AbiValue)
    requires
        well_formed(a),
        well_formed(b),
        same_meaning(a, b),
    ensures
        same_type(a, b),
        value_encoding(a) == value_encoding(b),
    decreases a, 0nat,
{
    match (a, b) {
        (AbiValue::Uint(x), AbiValue::Uint(y)) => {
            lemma_same_word(x, y);
        },
        (AbiValue::Tuple(x), AbiValue::Tuple(y)) => {
            law_same_meaning_same_encoding(x, y);
        },
        _ => {},
    }
}

proof fn lemma_parts_by_meaning(a: Seq<AbiValue>, b: Seq<AbiValue>, n: nat)
    requires
        n <= a.len(),
        a.len() == b.len(),
        head_size(a, a.len()) == head_size(b, b.len()),
        forall|i: int|
            0 <= i < a.len() ==> value_encoding(#[trigger] a[i]) == value_encoding(b[i])
                && dynamic(a[i]) == dynamic(b[i]),
    ensures
        heads(a, n) == heads(b, n),
        tails(a, n) == tails(b, n),
    decreases n,
{
    if n > 0 {
        lemma_parts_by_meaning(a, b, (n - 1) as nat);
        assert(value_encoding(a[n - 1]) == value_encoding(b[n - 1]));
    }
}

/// What means the same is encoded the same: zero bytes in front of an integer do not matter.
pub proof fn law_same_meaning_same_encoding(a: Seq<AbiValue>, b: Seq<AbiValue>)
    requires
        all_well_formed(a),
        all_well_formed(b),
        same_meanings(a, b),
    ensures
        same_types(a, b),
        list_encoding(a) == list_encoding(b),
    decreases a, 1nat,
{
    assert forall|i: int| 0 <= i < a.len() implies same_type(#[trigger] a[i], b[i])
        && value_encoding(a[i]) == value_encoding(b[i]) && dynamic(a[i]) == dynamic(b[i]) by {
        assert(same_meaning(a[i], b[i]));
        assert(well_formed(a[i]) && well_formed(b[i]));
        lemma_value_by_meaning(a[i], b[i]);
        lemma_same_dynamic(a[i], b[i]);
    }
    lemma_head_sizes(a, b, a.len());
    lemma_parts_by_meaning(a, b, a.len());
}

/// An integer is encoded as a 32-byte word that spells the same number.
pub proof fn law_uint_word(be: Seq<u8>)
    requires
        be.len() <= 32,
    ensures
        value_encoding(AbiValue::Uint(be)).len() == 32,
        be_value(value_encoding(AbiValue::Uint(be))) == be_value(be),
{
    crate::bytes::lemma_padding_keeps_value((32 - be.len()) as nat, be);
}

// ---- reading an encoding --------------------------------------------------------------

/// Is `v` no struct?
pub open spec fn flat(v: AbiValue) -> bool {
    !(v is Tuple)
}

/// Is none of `items` a struct?
pub open spec fn all_flat(items: Seq<AbiValue>) -> bool {
    forall|i: int| 0 <= i < items.len() ==> flat(#[trigger] items[i])
}

/// The 32-byte word of `e` that begins at `at`.
pub open spec fn word_at(e: Seq<u8>, at: int) -> Seq<u8> {
    e.subrange(at, at + 32)
}

/// The next multiple of 32.
pub open spec fn rounded_up(n: nat) -> nat {
    ((n + 31) / 32) * 32
}

/// Does the byte string `b` stand in `e` at `at`: first its length, as a word, then its bytes, then
/// zero bytes up to a multiple of 32?
pub open spec fn bytes_stand_at(e: Seq<u8>, at: int, b: Seq<u8>) -> bool {
    &&& 0 <= at
    &&& at + 32 + rounded_up(b.len()) <= e.len()
    &&& be_value(word_at(e, at)) == b.len()
    &&& e.subrange(at + 32, at + 32 + b.len()) == b
    &&& forall|k: int|
        at + 32 + b.len() <= k < at + 32 + rounded_up(b.len()) ==> #[trigger] e[k] == 0
}

/// Does the word of `e` at `at` stand for `v`? An integer, an address (behind twelve zero bytes), a
/// truth value (0 or 1) and a fixed word stand in the word itself; for a byte string or a text, the
/// word says where in `e` it stands.
pub open spec fn stands_at(e: Seq<u8>, at: int, v: AbiValue) -> bool {
    &&& 0 <= at
    &&& at + 32 <= e.len()
    &&& match v {
        AbiValue::Uint(be) => be_value(word_at(e, at)) == be_value(be),
        AbiValue::Address(a) => {
            &&& word_at(e, at).skip(12) == a
            &&& forall|k: int| 0 <= k < 12 ==> #[trigger] word_at(e, at)[k] == 0
        },
        AbiValue::Bool(b) => be_value(word_at(e, at)) == if b {
            1nat
        } else {
            0nat
        },
        AbiValue::FixedBytes32(b) => word_at(e, at) == b,
        AbiValue::Bytes(b) => bytes_stand_at(e, be_value(word_at(e, at)) as int, b),
        AbiValue::Str(s) => bytes_stand_at(e, be_value(word_at(e, at)) as int, encode_utf8(s)),
        AbiValue::Tuple(_) => false,
    }
}

/// How many bytes `v` takes behind the heads.
pub open spec fn tail_size(v: AbiValue) -> nat {
    match v {
        AbiValue::Bytes(b) => 32 + rounded_up(b.len()),
        AbiValue::Str(s) => 32 + rounded_up(encode_utf8(s).len()),
        _ => 0,
    }
}

/// How many bytes the first `n` of `items` take behind the heads.
pub open spec fn tail_sizes(items: Seq<AbiValue>, n: nat) -> nat
    decreases n,
{
    if n == 0 {
        0
    } else {
        tail_sizes(items, (n - 1) as nat) + tail_size(items[n - 1])
    }
}

proof fn lemma_small(n: nat)
    requires
        n < 0x1_0000_0000_0000_0000,
    ensures
        n < pow(256, 32),
{
    vstd::arithmetic::power::lemma_pow_adds(256, 8, 24);
    vstd::arithmetic::power::lemma_pow_positive(256, 24);
    assert(pow(256, 8) == 0x1_0000_0000_0000_0000int) by {
        reveal(pow);
        reveal_with_fuel(pow, 9);
    }
    let a = pow(256, 8);
    let b = pow(256, 24);
    assert(a * b >= a) by (nonlinear_arith)
        requires
            a > 0,
            b >= 1,
    ;
}

proof fn lemma_rounding(n: nat)
    ensures
        n + (32 - n % 32) % 32 == rounded_up(n),
{
    let r = n % 32;
    let q = n / 32;
    assert(n == 32 * q + r);
    if r == 0 {
        assert((n + 31) / 32 == q);
    } else {
        assert((n + 31) / 32 == q + 1);
    }
}

proof fn lemma_length_prefixed_size(b: Seq<u8>)
    ensures
        length_prefixed(b).len() == 32 + rounded_up(b.len()),
{
    crate::bytes::lemma_be_bytes_len(b.len(), 32);
    lemma_rounding(b.len());
}

proof fn lemma_bytes_stand(e: Seq<u8>, at: int, b: Seq<u8>)
    requires
        0 <= at,
        at + length_prefixed(b).len() <= e.len(),
        e.subrange(at, at + length_prefixed(b).len()) == length_prefixed(b),
        b.len() < pow(256, 32),
    ensures
        bytes_stand_at(e, at, b),
{
    let p = length_prefixed(b);
    lemma_length_prefixed_size(b);
    crate::bytes::lemma_be_bytes_len(b.len(), 32);
    crate::bytes::lemma_be_round_trip(b.len(), 32);
    assert forall|k: int| 0 <= k < p.len() implies e[at + k] == #[trigger] p[k] by {
        assert(e.subrange(at, at + p.len())[k] == e[at + k]);
    }
    assert(word_at(e, at) =~= be_bytes(b.len(), 32)) by {
        assert forall|k: int| 0 <= k < 32 implies word_at(e, at)[k] == be_bytes(b.len(), 32)[k] by {
            assert(p[k] == be_bytes(b.len(), 32)[k]);
        }
    }
    assert(e.subrange(at + 32, at + 32 + b.len()) =~= b) by {
        assert forall|k: int| 0 <= k < b.len() implies e.subrange(at + 32, at + 32 + b.len())[k]
            == b[k] by {
            assert(p[32 + k] == b[k]);
        }
    }
    assert forall|k: int|
        at + 32 + b.len() <= k < at + 32 + rounded_up(b.len()) implies #[trigger] e[k] == 0 by {
        assert(p[k - at] == 0);
    }
}

proof fn lemma_flat_sizes(items: Seq<AbiValue>, n: nat)
    requires
        n <= items.len(),
        all_flat(items),
        all_well_formed(items),
    ensures
        head_size(items, n) == 32 * n,
        tails(items, n).len() == tail_sizes(items, n),
    decreases n,
{
    if n > 0 {
        lemma_flat_sizes(items, (n - 1) as nat);
        let v = items[n - 1];
        assert(flat(v) && well_formed(v));
        lemma_flat_value(v);
        assert(head_size(items, n) == head_size(items, (n - 1) as nat) + 32);
        assert(tails(items, n).len() == tails(items, (n - 1) as nat).len() + tail_size(v));
    }
}

proof fn lemma_flat_value(v: AbiValue)
    requires
        flat(v),
        well_formed(v),
    ensures
        dynamic(v) <==> v is Bytes || v is Str,
        !dynamic(v) ==> value_encoding(v).len() == 32 && tail_size(v) == 0,
        dynamic(v) ==> value_encoding(v).len() == tail_size(v),
{
    match v {
        AbiValue::Uint(be) => {
            law_uint_word(be);
        },
        AbiValue::Address(a) => {
            assert(value_encoding(v) == left_padded(a, 32));
        },
        AbiValue::Bool(b) => {
            crate::bytes::lemma_be_bytes_len(
                if b {
                    1
                } else {
                    0
                },
                32,
            );
        },
        AbiValue::FixedBytes32(b) => {
            assert(value_encoding(v) == b);
        },
        AbiValue::Bytes(b) => {
            lemma_length_prefixed_size(b);
        },
        AbiValue::Str(s) => {
            lemma_length_prefixed_size(encode_utf8(s));
        },
        AbiValue::Tuple(_) => {},
    }
}

/// The encoding of values none of which is a struct takes a word for each, and what the byte strings
/// and texts take.
pub proof fn lemma_flat_len(items: Seq<AbiValue>)
    requires
        all_flat(items),
        all_well_formed(items),
    ensures
        list_encoding(items).len() == 32 * items.len() + tail_sizes(items, items.len()),
{
    lemma_flat_sizes(items, items.len());
    lemma_heads_len(items, items.len());
}

/// The encoding of values none of which is a struct, word by word: the `i`th word stands for the
/// `i`th value. The byte strings and texts stand behind all of the words, one right behind the other
/// in the order of the values, and nothing else does.
pub proof fn law_flat_words(items: Seq<AbiValue>, i: nat)
    requires
        all_flat(items),
        all_well_formed(items),
        i < items.len(),
        list_encoding(items).len() < 0x1_0000_0000_0000_0000,
    ensures
        stands_at(list_encoding(items), 32 * i as int, items[i as int]),
        items[i as int] is Bytes || items[i as int] is Str ==> be_value(
            word_at(list_encoding(items), 32 * i as int),
        ) == 32 * items.len() + tail_sizes(items, i),
        list_encoding(items).len() == 32 * items.len() + tail_sizes(items, items.len()),
{
    let e = list_encoding(items);
    let v = items[i as int];
    let at = 32 * i as int;
    let one = value_encoding(v);
    lemma_flat_sizes(items, i);
    lemma_flat_sizes(items, items.len());
    lemma_heads_len(items, items.len());
    law_layout(items, i);
    assert(flat(v) && well_formed(v));
    let start = item_start(items, i);
    lemma_small(start);
    match v {
        AbiValue::Uint(be) => {
            law_uint_word(be);
        },
        AbiValue::Address(a) => {
            assert(word_at(e, at) == left_padded(a, 32));
            assert(word_at(e, at).skip(12) =~= a);
        },
        AbiValue::Bool(b) => {
            let n: nat = if b {
                1
            } else {
                0
            };
            lemma_small(n);
            crate::bytes::lemma_be_bytes_len(n, 32);
            crate::bytes::lemma_be_round_trip(n, 32);
        },
        AbiValue::FixedBytes32(b) => {},
        AbiValue::Bytes(b) => {
            crate::bytes::lemma_be_round_trip(start, 32);
            lemma_length_prefixed_size(b);
            lemma_small(b.len());
            lemma_bytes_stand(e, start as int, b);
        },
        AbiValue::Str(s) => {
            let b = encode_utf8(s);
            crate::bytes::lemma_be_round_trip(start, 32);
            lemma_length_prefixed_size(b);
            lemma_small(b.len());
            lemma_bytes_stand(e, start as int, b);
        },
        AbiValue::Tuple(_) => {},
    }
}

/// A struct with a member whose encoding depends on what it holds is one itself.
pub proof fn lemma_dynamic_member(items: Seq<AbiValue>, i: int)
    requires
        0 <= i < items.len(),
        dynamic(items[i]),
    ensures
        dynamic(AbiValue::Tuple(items)),
{
    let v = AbiValue::Tuple(items);
    assert(dynamic(v->Tuple_0[i]));
}

/// A list of one struct that holds a byte string or a text somewhere is encoded as the word 32 and
/// the struct behind it.
pub proof fn law_one_struct(items: Seq<AbiValue>)
    requires
        dynamic(AbiValue::Tuple(items)),
    ensures
        ({
            let e = list_encoding(seq![AbiValue::Tuple(items)]);
            &&& e.len() == 32 + list_encoding(items).len()
            &&& be_value(word_at(e, 0)) == 32
            &&& e.skip(32) == list_encoding(items)
        }),
{
    let outer = seq![AbiValue::Tuple(items)];
    let e = list_encoding(outer);
    law_layout(outer, 0);
    lemma_heads_len(outer, 1);
    reveal_with_fuel(head_size, 2);
    reveal_with_fuel(tails, 2);
    assert(head_size(outer, 1) == 32);
    assert(tails(outer, 0) =~= Seq::<u8>::empty());
    assert(tails(outer, 1) =~= list_encoding(items));
    assert(item_start(outer, 0) == 32);
    lemma_small(32);
    crate::bytes::lemma_be_round_trip(32, 32);
    assert(e.skip(32) =~= e.subrange(32, e.len() as int));
}

/// A struct of a fixed word and a struct that holds a byte string or a text somewhere is encoded as
/// the word, the word 64, and the inner struct behind them.
pub proof fn law_word_and_struct(w: Seq<u8>, items: Seq<AbiValue>)
    requires
        w.len() == 32,
        dynamic(AbiValue::Tuple(items)),
    ensures
        ({
            let e = list_encoding(seq![AbiValue::FixedBytes32(w), AbiValue::Tuple(items)]);
            &&& e.len() == 64 + list_encoding(items).len()
            &&& word_at(e, 0) == w
            &&& be_value(word_at(e, 32)) == 64
            &&& e.skip(64) == list_encoding(items)
        }),
{
    let outer = seq![AbiValue::FixedBytes32(w), AbiValue::Tuple(items)];
    let e = list_encoding(outer);
    law_layout(outer, 0);
    law_layout(outer, 1);
    lemma_heads_len(outer, 2);
    reveal_with_fuel(head_size, 3);
    reveal_with_fuel(tails, 3);
    assert(!dynamic(outer[0]));
    assert(value_encoding(outer[0]) == w);
    assert(head_size(outer, 1) == 32);
    assert(head_size(outer, 2) == 64);
    assert(tails(outer, 0) =~= Seq::<u8>::empty());
    assert(tails(outer, 1) =~= Seq::<u8>::empty());
    assert(tails(outer, 2) =~= list_encoding(items));
    assert(item_start(outer, 0) == 0);
    assert(item_start(outer, 1) == 64);
    lemma_small(64);
    crate::bytes::lemma_be_round_trip(64, 32);
    assert(e.skip(64) =~= e.subrange(64, e.len() as int));
}

/// Hexadecimal text is read two digits to a byte, the first counting sixteenfold, behind an optional
/// `0x`. It is refused exactly where a character is no digit, or the digits do not come in pairs.
pub proof fn law_hex_read(s: Seq<char>)
    ensures
        ({
            let d = if s.len() >= 2 && s[0] == '0' && s[1] == 'x' {
                s.skip(2)
            } else {
                s
            };
            match hex_bytes(s) {
                Ok(b) => {
                    &&& all_digits(d)
                    &&& d.len() == 2 * b.len()
                    &&& forall|i: int|
                        0 <= i < b.len() ==> #[trigger] b[i] == hex_digit(d[2 * i])->0 * 16
                            + hex_digit(d[2 * i + 1])->0
                },
                Err(_) => !all_digits(d) || d.len() % 2 == 1,
            }
        }),
{
    let d = without_0x(s);
    let e = encode_utf8(d);
    if first_non_hex(e) >= e.len() {
        lemma_bytes_are_digits(d);
    }
    if all_digits(d) {
        lemma_digit_bytes(d);
        if let Ok(b) = hex_bytes(s) {
            assert forall|i: int| 0 <= i < b.len() implies #[trigger] b[i] == hex_digit(
                d[2 * i],
            )->0 * 16 + hex_digit(d[2 * i + 1])->0 by {
                assert(e[2 * i] as char == d[2 * i]);
                assert(e[2 * i + 1] as char == d[2 * i + 1]);
                assert(hex_digit(d[2 * i]) is Some && hex_digit(d[2 * i + 1]) is Some);
            }
        }
    }
}

/// Bytes are written as `0x` and two digits each, the first for the higher half, without capital
/// letters.
pub proof fn law_hex_written(b: Seq<u8>)
    ensures
        hex_0x(b).len() == 2 + 2 * b.len(),
        hex_0x(b)[0] == '0',
        hex_0x(b)[1] == 'x',
        forall|i: int|
            0 <= i < b.len() ==> {
                &&& hex_digit(hex_0x(b)[2 + 2 * i]) == Some(#[trigger] b[i] as nat / 16)
                &&& hex_digit(hex_0x(b)[3 + 2 * i]) == Some(b[i] as nat % 16)
            },
        forall|k: int| 0 <= k < hex_0x(b).len() ==> !('A' <= #[trigger] hex_0x(b)[k] <= 'Z'),
{
    reveal_strlit("0x");
    let s = hex_0x(b);
    assert forall|i: int| 0 <= i < b.len() implies {
        &&& hex_digit(s[2 + 2 * i]) == Some(#[trigger] b[i] as nat / 16)
        &&& hex_digit(s[3 + 2 * i]) == Some(b[i] as nat % 16)
    } by {
        assert(s[2 + 2 * i] == digit_char(b[i] as nat / 16));
        assert(s[3 + 2 * i] == digit_char(b[i] as nat % 16));
    }
    assert forall|k: int| 0 <= k < s.len() implies !('A' <= #[trigger] s[k] <= 'Z') by {
        if k >= 2 {
            let at = (k - 2) / 2;
            assert(s[k] == hex_encoded(b)[k - 2]);
        }
    }
}

/// The sixteen digits, in either case.
pub proof fn law_digits(k: nat)
    ensures
        k < 10 ==> hex_digit(('0' as nat + k) as char) == Some(k),
        k < 6 ==> hex_digit(('a' as nat + k) as char) == Some(10 + k),
        k < 6 ==> hex_digit(('A' as nat + k) as char) == Some(10 + k),
        forall|c: char| (#[trigger] hex_digit(c)) is Some ==> '0' <= c <= '9' || 'a' <= c <= 'f'
            || 'A' <= c <= 'F',
{
}

/// An address is 20 bytes and a word is 32, as their text spells them; what spells another number of
/// bytes, or none, is refused.
pub proof fn law_fixed_width_read(s: Seq<char>)
    ensures
        match hex_bytes(s) {
            Ok(b) => {
                &&& b.len() == 20 ==> hex_address(s) == Ok::<Seq<u8>, Seq<char>>(b)
                &&& b.len() != 20 ==> hex_address(s) == Err::<Seq<u8>, Seq<char>>(
                    "expected 20-byte address, got "@ + decimal_text(b.len()) + " bytes"@,
                )
                &&& b.len() == 32 ==> hex_word(s) == Ok::<Seq<u8>, Seq<char>>(b)
                &&& b.len() != 32 ==> hex_word(s) == Err::<Seq<u8>, Seq<char>>(
                    "expected 32 bytes, got "@ + decimal_text(b.len()) + " bytes"@,
                )
            },
            Err(e) => hex_address(s) == Err::<Seq<u8>, Seq<char>>(e) && hex_word(s) == Err::<
                Seq<u8>,
                Seq<char>,
            >(e),
        },
{
    assert("expected "@ + "20-byte address"@ + ", got "@ =~= "expected 20-byte address, got "@) by {
        reveal_strlit("expected ");
        reveal_strlit("20-byte address");
        reveal_strlit(", got ");
        reveal_strlit("expected 20-byte address, got ");
    }
    assert("expected "@ + "32 bytes"@ + ", got "@ =~= "expected 32 bytes, got "@) by {
        reveal_strlit("expected ");
        reveal_strlit("32 bytes");
        reveal_strlit(", got ");
        reveal_strlit("expected 32 bytes, got ");
    }
}

proof fn lemma_first_non_hex(b: Seq<u8>)
    ensures
        0 <= first_non_hex(b) <= b.len(),
        first_non_hex(b) < b.len() ==> hex_digit(b[first_non_hex(b)] as char) is None,
        forall|k: int| 0 <= k < first_non_hex(b) ==> #[trigger] hex_digit(b[k] as char) is Some,
    decreases b.len(),
{
    if b.len() > 0 && hex_digit(b[0] as char) is Some {
        let r = b.skip(1);
        lemma_first_non_hex(r);
        assert forall|k: int| 0 <= k < first_non_hex(b) implies #[trigger] hex_digit(
            b[k] as char,
        ) is Some by {
            if k > 0 {
                assert(r[k - 1] == b[k]);
            }
        }
    }
}

/// What is said of an ASCII text that is no hexadecimal form: that its digits are odd in number, or
/// else which character is the first that is no digit, and where it stands.
pub proof fn law_hex_refused(s: Seq<char>, k: int)
    requires
        is_ascii_chars(without_0x(s)),
    ensures
        ({
            let d = without_0x(s);
            let why = "bad hex "@ + quoted_text(d) + ": "@;
            &&& d.len() % 2 == 1 ==> hex_bytes(s) == Err::<Seq<u8>, Seq<char>>(
                why + "Odd number of digits"@,
            )
            &&& d.len() % 2 == 0 && 0 <= k < d.len() && hex_digit(d[k]) is None && (forall|j: int|
                0 <= j < k ==> #[trigger] hex_digit(d[j]) is Some) ==> hex_bytes(s) == Err::<
                Seq<u8>,
                Seq<char>,
            >(
                why + ("Invalid character "@ + quoted_char_text(d[k]) + " at position "@
                    + decimal_text(k as nat)),
            )
        }),
{
    let d = without_0x(s);
    is_ascii_chars_encode_utf8(d);
    let e = encode_utf8(d);
    assert(e.len() == d.len());
    assert forall|i: int| 0 <= i < d.len() implies #[trigger] e[i] as char == d[i] by {
        assert(e[i] == d[i] as u8);
        assert('\0' <= d[i] <= '\u{7f}');
    }
    lemma_first_non_hex(e);
    if 0 <= k < d.len() && hex_digit(d[k]) is None && (forall|j: int|
        0 <= j < k ==> #[trigger] hex_digit(d[j]) is Some) {
        let at = first_non_hex(e);
        if at < k {
            assert(e[at] as char == d[at]);
            assert(hex_digit(d[at]) is Some);
        }
        if k < at {
            assert(e[k] as char == d[k]);
            assert(hex_digit(e[k] as char) is Some);
        }
        assert(at == k);
        assert(e[k] as char == d[k]);
    }
}

/// A refused ASCII text is told what its error says: that the digits are odd in number, or else which
/// character stands where no digit does. A wrong length is told as that.
pub proof fn law_hex_message(s: Seq<char>, k: usize)
    requires
        is_ascii_chars(without_0x(s)),
    ensures
        ({
            let d = without_0x(s);
            let why = "bad hex "@ + quoted_text(d) + ": "@;
            &&& d.len() % 2 == 1 ==> hex_bytes(s) == Err::<Seq<u8>, Seq<char>>(
                why + hex_error_text(HexError::OddLength),
            )
            &&& d.len() % 2 == 0 && k < d.len() && hex_digit(d[k as int]) is None && (forall|j: int|
                0 <= j < k ==> #[trigger] hex_digit(d[j]) is Some) ==> hex_bytes(s) == Err::<
                Seq<u8>,
                Seq<char>,
            >(why + hex_error_text(HexError::InvalidHexCharacter { c: d[k as int], index: k }))
        }),
        hex_error_text(HexError::InvalidStringLength) == "Invalid string length"@,
{
    law_hex_refused(s, k as int);
}

/// Byte strings and texts are encoded behind the heads, the other values among them; a struct goes
/// where its members go: behind the heads exactly if one of them does.
pub proof fn law_dynamic(v: AbiValue, items: Seq<AbiValue>)
    ensures
        flat(v) ==> (dynamic(v) <==> v is Bytes || v is Str),
        dynamic(AbiValue::Tuple(items)) <==> exists|i: int|
            0 <= i < items.len() && dynamic(#[trigger] items[i]),
{
    if exists|i: int| 0 <= i < items.len() && dynamic(#[trigger] items[i]) {
        let i = choose|i: int| 0 <= i < items.len() && dynamic(#[trigger] items[i]);
        lemma_dynamic_member(items, i);
    }
}

/// A struct that has no byte string and no text anywhere is encoded in place, as its members are.
pub proof fn law_struct_in_place(items: Seq<AbiValue>)
    requires
        !dynamic(AbiValue::Tuple(items)),
    ensures
        list_encoding(seq![AbiValue::Tuple(items)]) == list_encoding(items),
{
    let outer = seq![AbiValue::Tuple(items)];
    reveal_with_fuel(heads, 2);
    reveal_with_fuel(tails, 2);
    assert(heads(outer, 0) =~= Seq::<u8>::empty());
    assert(heads(outer, 1) =~= list_encoding(items));
    assert(tails(outer, 1) =~= Seq::<u8>::empty());
    assert(list_encoding(outer) =~= list_encoding(items));
}

/// The heads stand one right behind the other, each 32 bytes or the whole of a value that is encoded
/// among them, and so do the values behind them; there is nothing else.
pub proof fn law_no_gaps(items: Seq<AbiValue>, i: nat)
    requires
        i < items.len(),
    ensures
        head_size(items, 0) == 0,
        dynamic(items[i as int]) ==> head_size(items, i + 1) == head_size(items, i) + 32,
        !dynamic(items[i as int]) ==> head_size(items, i + 1) == head_size(items, i)
            + value_encoding(items[i as int]).len(),
        tails(items, 0).len() == 0,
        dynamic(items[i as int]) ==> tails(items, i + 1).len() == tails(items, i).len()
            + value_encoding(items[i as int]).len(),
        !dynamic(items[i as int]) ==> tails(items, i + 1).len() == tails(items, i).len(),
        list_encoding(items).len() == head_size(items, items.len()) + tails(
            items,
            items.len(),
        ).len(),
{
    lemma_heads_len(items, items.len());
}

/// A value stands for what it holds, and a list of values item by item.
pub proof fn law_val_view(v: Val, items: Seq<Val>)
    ensures
        match v {
            Val::Uint(b) => v@ == AbiValue::Uint(b@),
            Val::Address(a) => v@ == AbiValue::Address(a@),
            Val::Bool(b) => v@ == AbiValue::Bool(b),
            Val::FixedBytes32(b) => v@ == AbiValue::FixedBytes32(b@),
            Val::Bytes(b) => v@ == AbiValue::Bytes(b@),
            Val::Str(s) => v@ == AbiValue::Str(s@),
            Val::Tuple(members) => v@ == AbiValue::Tuple(val_models(members@)),
        },
        val_models(items).len() == items.len(),
        forall|i: int| 0 <= i < items.len() ==> #[trigger] val_models(items)[i] == items[i]@,
{
}

} // verus!
