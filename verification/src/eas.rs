//! EAS calldata: register a schema, and attest under one. Schema-field encoding lives here too.

use vstd::arithmetic::power::pow;
use vstd::prelude::*;
use vstd::slice::slice_to_vec;
use vstd::string::*;
use vstd::utf8::{decode_utf8_encode_utf8, encode_utf8, valid_utf8};

use crate::abi::{
    all_flat, all_well_formed, bytes_stand_at, call, call_data, encode, flat, hex_bytes,
    hex_to_bytes, item_start, law_flat_words, law_layout, law_one_struct, law_uint_word,
    law_word_and_struct, lemma_dynamic_member, lemma_flat_len, list_encoding, rounded_up,
    stands_at, tail_sizes, val_models, value_encoding, well_formed, word_at, AbiValue, Val,
};
use crate::bytes::{array20, be_bytes, be_value, extend, right_pad32, right_padded32};
use crate::keccak::{keccak256, keccak_digest, selector_of};
use crate::text::{
    all_white, decimal, decimal_text, first_at, from_utf8_lossy, is_white, is_word, joined,
    law_trimmed, lemma_trimmed_blank, lemma_trimmed_end_front, lemma_white_skipped,
    lemma_word_ends, lossy_text, quoted, quoted_text, same, split_once, split_word, starts_with,
    trim, trim_start, trimmed, trimmed_end, trimmed_start, word_len,
};

verus! {

/// EAS `attest((bytes32 schema,(address recipient,uint64 expirationTime,bool revocable,
/// bytes32 refUID,bytes data,uint256 value)))`.
pub const ATTEST_SIG: &'static str = "attest((bytes32,(address,uint64,bool,bytes32,bytes,uint256)))";

/// SchemaRegistry `register(string schema,address resolver,bool revocable)`.
pub const REGISTER_SIG: &'static str = "register(string,address,bool)";

// ---- calldata -------------------------------------------------------------------------

/// One attestation, as EAS takes it.
pub struct AttestationRequest {
    pub schema_uid: [u8; 32],
    pub recipient: [u8; 20],
    pub expiration_time: u64,
    pub revocable: bool,
    pub ref_uid: [u8; 32],
    /// ABI-encoded schema payload (see `encode_schema_data`).
    pub data: Vec<u8>,
    pub value: u128,
}

/// The argument of `attest`: the schema, and the attestation under it.
pub open spec fn request_value(
    schema_uid: Seq<u8>,
    recipient: Seq<u8>,
    expiration_time: nat,
    revocable: bool,
    ref_uid: Seq<u8>,
    data: Seq<u8>,
    value: nat,
) -> AbiValue {
    AbiValue::Tuple(
        seq![
            AbiValue::FixedBytes32(schema_uid),
            AbiValue::Tuple(
                seq![
                    AbiValue::Address(recipient),
                    AbiValue::Uint(be_bytes(expiration_time, 16)),
                    AbiValue::Bool(revocable),
                    AbiValue::FixedBytes32(ref_uid),
                    AbiValue::Bytes(data),
                    AbiValue::Uint(be_bytes(value, 16)),
                ],
            ),
        ],
    )
}

impl AttestationRequest {
    /// The calldata of `attest` for this request.
    pub open spec fn attest_data(&self) -> Seq<u8> {
        call_data(
            ATTEST_SIG@,
            seq![
                request_value(
                    self.schema_uid@,
                    self.recipient@,
                    self.expiration_time as nat,
                    self.revocable,
                    self.ref_uid@,
                    self.data@,
                    self.value as nat,
                ),
            ],
        )
    }

    /// The calldata of `attest` for this request.
    pub fn calldata(&self) -> (out: Vec<u8>)
        ensures
            out@ == self.attest_data(),
    {
        let mut inner: Vec<Val> = Vec::new();
        inner.push(Val::Address(self.recipient));
        inner.push(Val::uint_u128(self.expiration_time as u128));
        inner.push(Val::Bool(self.revocable));
        inner.push(Val::FixedBytes32(self.ref_uid));
        inner.push(Val::Bytes(slice_to_vec(self.data.as_slice())));
        inner.push(Val::uint_u128(self.value));
        let ghost inner_models = seq![
            AbiValue::Address(self.recipient@),
            AbiValue::Uint(be_bytes(self.expiration_time as nat, 16)),
            AbiValue::Bool(self.revocable),
            AbiValue::FixedBytes32(self.ref_uid@),
            AbiValue::Bytes(self.data@),
            AbiValue::Uint(be_bytes(self.value as nat, 16)),
        ];
        assert(val_models(inner@) =~= inner_models);
        proof {
            crate::bytes::lemma_be_bytes_len(self.expiration_time as nat, 16);
            crate::bytes::lemma_be_bytes_len(self.value as nat, 16);
        }
        let mut request: Vec<Val> = Vec::new();
        request.push(Val::FixedBytes32(self.schema_uid));
        request.push(Val::Tuple(inner));
        assert(val_models(request@) =~= seq![
            AbiValue::FixedBytes32(self.schema_uid@),
            AbiValue::Tuple(inner_models),
        ]);
        let mut args: Vec<Val> = Vec::new();
        args.push(Val::Tuple(request));
        assert(val_models(args@) =~= seq![
            request_value(
                self.schema_uid@,
                self.recipient@,
                self.expiration_time as nat,
                self.revocable,
                self.ref_uid@,
                self.data@,
                self.value as nat,
            ),
        ]);
        assert(all_well_formed(inner_models));
        assert(well_formed(AbiValue::Tuple(inner_models)));
        assert(all_well_formed(val_models(request@)));
        assert(all_well_formed(val_models(args@)));
        call(ATTEST_SIG, args.as_slice())
    }
}

/// The calldata of `register`.
pub open spec fn register_data(definition: Seq<char>, resolver: Seq<u8>, revocable: bool) -> Seq<
    u8,
> {
    call_data(
        REGISTER_SIG@,
        seq![AbiValue::Str(definition), AbiValue::Address(resolver), AbiValue::Bool(revocable)],
    )
}

/// The calldata of `register`.
pub fn register_schema_calldata(definition: &str, resolver: [u8; 20], revocable: bool) -> (out: Vec<
    u8,
>)
    ensures
        out@ == register_data(definition@, resolver@, revocable),
{
    let mut args: Vec<Val> = Vec::new();
    args.push(Val::Str(definition.to_owned()));
    args.push(Val::Address(resolver));
    args.push(Val::Bool(revocable));
    assert(val_models(args@) =~= seq![
        AbiValue::Str(definition@),
        AbiValue::Address(resolver@),
        AbiValue::Bool(revocable),
    ]);
    call(REGISTER_SIG, args.as_slice())
}

/// The UID under which the SchemaRegistry files a schema: the digest of the packed encoding.
pub open spec fn schema_uid(definition: Seq<char>, resolver: Seq<u8>, revocable: bool) -> Seq<u8> {
    keccak_digest(
        encode_utf8(definition) + resolver + seq![
            if revocable {
                1u8
            } else {
                0u8
            },
        ],
    )
}

/// EAS SchemaRegistry UID = keccak256(abi.encodePacked(schema, resolver, revocable)).
pub fn predicted_schema_uid(definition: &str, resolver: &[u8; 20], revocable: bool) -> (out: [u8;
    32])
    ensures
        out@ == schema_uid(definition@, resolver@, revocable),
{
    let mut packed: Vec<u8> = slice_to_vec(definition.as_bytes());
    extend(&mut packed, resolver.as_slice());
    packed.push(if revocable { 1u8 } else { 0u8 });
    assert(packed@ =~= encode_utf8(definition@) + resolver@ + seq![
        if revocable {
            1u8
        } else {
            0u8
        },
    ]);
    keccak256(packed.as_slice())
}

// ---- schemas --------------------------------------------------------------------------

/// A single field of an EAS schema, e.g. `uint256 locked`. `name` is retained for diagnostics
/// and echoed back to callers so a mis-ordered `collect` list is easy to spot.
pub struct SchemaField {
    pub ty: String,
    pub name: String,
}

/// What a `SchemaField` holds.
pub struct FieldModel {
    pub ty: Seq<char>,
    pub name: Seq<char>,
}

impl View for SchemaField {
    type V = FieldModel;

    open spec fn view(&self) -> FieldModel {
        FieldModel { ty: self.ty@, name: self.name@ }
    }
}

/// What each of the fields holds.
pub open spec fn field_models(fields: Seq<SchemaField>) -> Seq<FieldModel> {
    fields.map_values(|f: SchemaField| f@)
}

/// The field that one comma-separated part declares: its first two words. A blank part declares
/// none.
pub open spec fn field_of(part: Seq<char>) -> Result<Option<FieldModel>, Seq<char>> {
    let p = trimmed(part);
    if p.len() == 0 {
        Ok(None)
    } else {
        let rest = trimmed_start(p.skip(word_len(p)));
        if rest.len() == 0 {
            Err("schema field has no name: "@ + quoted_text(p))
        } else {
            Ok(Some(FieldModel { ty: p.take(word_len(p)), name: rest.take(word_len(rest)) }))
        }
    }
}

/// The fields that `s` declares, in order, part by part; the error of the first part that has one.
pub open spec fn fields_of(s: Seq<char>) -> Result<Seq<FieldModel>, Seq<char>>
    decreases s.len(),
{
    let at = first_at(s, ',');
    match field_of(s.take(at)) {
        Err(e) => Err(e),
        Ok(field) => {
            let first = match field {
                Some(f) => seq![f],
                None => Seq::empty(),
            };
            if at >= s.len() || at < 0 {
                Ok(first)
            } else {
                match fields_of(s.skip(at + 1)) {
                    Err(e) => Err(e),
                    Ok(more) => Ok(first + more),
                }
            }
        },
    }
}

/// The fields of a schema definition; there must be one.
pub open spec fn schema_fields(definition: Seq<char>) -> Result<Seq<FieldModel>, Seq<char>> {
    match fields_of(definition) {
        Err(e) => Err(e),
        Ok(fields) => if fields.len() == 0 {
            Err("schema definition is empty"@)
        } else {
            Ok(fields)
        },
    }
}

fn parse_field(part: &str) -> (r: Result<Option<SchemaField>, String>)
    ensures
        match r {
            Ok(Some(f)) => field_of(part@) == Ok::<Option<FieldModel>, Seq<char>>(Some(f@)),
            Ok(None) => field_of(part@) == Ok::<Option<FieldModel>, Seq<char>>(None),
            Err(e) => field_of(part@) == Err::<Option<FieldModel>, Seq<char>>(e@),
        },
{
    let p = trim(part);
    if p.is_empty() {
        return Ok(None);
    }
    let (ty, after) = split_word(p);
    let rest = trim_start(after);
    if rest.is_empty() {
        let mut e = "schema field has no name: ".to_owned();
        e.append(quoted(p).as_str());
        return Err(e);
    }
    let (name, _) = split_word(rest);
    Ok(Some(SchemaField { ty: ty.to_owned(), name: name.to_owned() }))
}

/// Parse a schema definition string ("uint256 locked,uint256 minted,uint64 blockNumber")
/// into ordered fields. Whitespace and a trailing comma are tolerated.
pub fn parse_schema(definition: &str) -> (r: Result<Vec<SchemaField>, String>)
    ensures
        match r {
            Ok(fields) => schema_fields(definition@) == Ok::<Seq<FieldModel>, Seq<char>>(
                field_models(fields@),
            ),
            Err(e) => schema_fields(definition@) == Err::<Seq<FieldModel>, Seq<char>>(e@),
        },
{
    let mut out: Vec<SchemaField> = Vec::new();
    let mut rest: &str = definition;
    let mut more: bool = true;
    assert(match fields_of(definition@) {
        Ok(fs) => field_models(out@) + fs =~= fs,
        Err(e) => true,
    });
    while more
        invariant
            more ==> fields_of(definition@) == (match fields_of(rest@) {
                Ok(fs) => Ok(field_models(out@) + fs),
                Err(e) => Err(e),
            }),
            !more ==> fields_of(definition@) == Ok::<Seq<FieldModel>, Seq<char>>(
                field_models(out@),
            ),
        decreases
                if more {
                    rest@.len() + 1
                } else {
                    0
                },
    {
        let ghost before = field_models(out@);
        let ghost whole = rest@;
        let (part, next): (&str, Option<&str>) = match split_once(rest, ',') {
            Some((head, tail)) => (head, Some(tail)),
            None => (rest, None),
        };
        assert(whole.take(first_at(whole, ',')) =~= part@);
        let ghost found = match field_of(part@) {
            Ok(Some(f)) => seq![f],
            _ => Seq::empty(),
        };
        match parse_field(part) {
            Err(e) => {
                return Err(e);
            },
            Ok(Some(f)) => {
                out.push(f);
                assert(field_models(out@) =~= before + found);
            },
            Ok(None) => {
                assert(field_models(out@) =~= before + found);
            },
        }
        match next {
            Some(tail) => {
                rest = tail;
                assert(match fields_of(tail@) {
                    Ok(fs) => before + (found + fs) =~= field_models(out@) + fs,
                    Err(e) => true,
                });
            },
            None => {
                more = false;
            },
        }
    }
    if out.is_empty() {
        return Err("schema definition is empty".to_owned());
    }
    Ok(out)
}

// ---- collected values -----------------------------------------------------------------

/// Canonical collected value before it is coerced to a schema type.
#[derive(Debug)]
pub enum Raw {
    Bytes(Vec<u8>),
    Address([u8; 20]),
    /// Produced by string-valued collectors.
    Str(String),
}

/// What a `Raw` holds.
pub enum RawModel {
    Bytes(Seq<u8>),
    Address(Seq<u8>),
    Str(Seq<char>),
}

impl View for Raw {
    type V = RawModel;

    open spec fn view(&self) -> RawModel {
        match *self {
            Raw::Bytes(b) => RawModel::Bytes(b@),
            Raw::Address(a) => RawModel::Address(a@),
            Raw::Str(s) => RawModel::Str(s@),
        }
    }
}

impl Clone for Raw {
    fn clone(&self) -> (r: Raw)
        ensures
            r@ == self@,
    {
        match self {
            Raw::Bytes(b) => Raw::Bytes(slice_to_vec(b.as_slice())),
            Raw::Address(a) => Raw::Address(*a),
            Raw::Str(s) => Raw::Str(s.clone()),
        }
    }
}

/// What each of the values holds.
pub open spec fn raw_models(values: Seq<Raw>) -> Seq<RawModel> {
    values.map_values(|r: Raw| r@)
}

/// `b` as a list of decimal numbers in square brackets.
pub open spec fn byte_list_text(b: Seq<u8>) -> Seq<char> {
    "["@ + joined(b.map_values(|x: u8| decimal_text(x as nat)), ", "@) + "]"@
}

/// A collected value, spelled out for an error message.
pub open spec fn raw_text(raw: RawModel) -> Seq<char> {
    match raw {
        RawModel::Bytes(b) => "Bytes("@ + byte_list_text(b) + ")"@,
        RawModel::Address(a) => "Address("@ + byte_list_text(a) + ")"@,
        RawModel::Str(s) => "Str("@ + quoted_text(s) + ")"@,
    }
}

fn describe_bytes(b: &[u8]) -> (r: String)
    ensures
        r@ == byte_list_text(b@),
{
    let ghost all = b@.map_values(|x: u8| decimal_text(x as nat));
    let mut r = "[".to_owned();
    let mut i: usize = 0;
    assert(all.take(0) =~= Seq::<Seq<char>>::empty());
    assert("["@ + Seq::<char>::empty() =~= "["@);
    while i < b.len()
        invariant
            i <= b@.len(),
            all == b@.map_values(|x: u8| decimal_text(x as nat)),
            r@ == "["@ + joined(all.take(i as int), ", "@),
        decreases b@.len() - i,
    {
        let ghost before = joined(all.take(i as int), ", "@);
        assert(all.take(i + 1).drop_last() =~= all.take(i as int));
        let d = decimal(b[i] as u128);
        if i > 0 {
            r.append(", ");
            r.append(d.as_str());
            assert("["@ + before + ", "@ + d@ =~= "["@ + (before + ", "@ + d@));
        } else {
            r.append(d.as_str());
            assert("["@ + Seq::<char>::empty() + d@ =~= "["@ + d@);
        }
        i += 1;
    }
    assert(all.take(i as int) =~= all);
    r.append("]");
    r
}

impl Raw {
    /// This value, spelled out for an error message.
    pub fn describe(&self) -> (r: String)
        ensures
            r@ == raw_text(self@),
    {
        match self {
            Raw::Bytes(b) => {
                let mut r = "Bytes(".to_owned();
                r.append(describe_bytes(b.as_slice()).as_str());
                r.append(")");
                r
            },
            Raw::Address(a) => {
                let mut r = "Address(".to_owned();
                r.append(describe_bytes(a.as_slice()).as_str());
                r.append(")");
                r
            },
            Raw::Str(s) => {
                let mut r = "Str(".to_owned();
                r.append(quoted(s.as_str()).as_str());
                r.append(")");
                r
            },
        }
    }
}

/// `be` as an integer of at most 32 bytes.
pub open spec fn as_uint(be: Seq<u8>) -> Result<AbiValue, Seq<char>> {
    if be.len() > 32 {
        Err("uint too wide: "@ + decimal_text(be.len()) + " bytes"@)
    } else {
        Ok(AbiValue::Uint(be))
    }
}

/// The complaint that `raw` has no reading as a `ty`.
pub open spec fn cannot_coerce(raw: RawModel, ty: Seq<char>) -> Seq<char> {
    "cannot coerce "@ + raw_text(raw) + " into "@ + ty
}

/// The ABI value that a field of type `ty` holds when `raw` was collected for it.
pub open spec fn coerced(ty: Seq<char>, raw: RawModel) -> Result<AbiValue, Seq<char>> {
    let base = trimmed(ty);
    if "uint"@.is_prefix_of(base) {
        match raw {
            RawModel::Bytes(be) => as_uint(be),
            RawModel::Str(s) => match hex_bytes(s) {
                Ok(be) => as_uint(be),
                Err(e) => Err(e),
            },
            RawModel::Address(a) => as_uint(a),
        }
    } else if base == "address"@ {
        match raw {
            RawModel::Address(a) => Ok(AbiValue::Address(a)),
            RawModel::Bytes(b) => if b.len() == 20 {
                Ok(AbiValue::Address(b))
            } else if b.len() == 32 {
                Ok(AbiValue::Address(b.skip(12)))
            } else {
                Err(cannot_coerce(raw, "address"@))
            },
            RawModel::Str(_) => Err(cannot_coerce(raw, "address"@)),
        }
    } else if base == "bool"@ {
        match raw {
            RawModel::Bytes(b) => Ok(
                AbiValue::Bool(exists|i: int| 0 <= i < b.len() && #[trigger] b[i] != 0),
            ),
            _ => Err(cannot_coerce(raw, "bool"@)),
        }
    } else if base == "bytes32"@ {
        match raw {
            RawModel::Bytes(b) => Ok(AbiValue::FixedBytes32(right_padded32(b))),
            _ => Err(cannot_coerce(raw, "bytes32"@)),
        }
    } else if base == "string"@ {
        match raw {
            RawModel::Str(s) => Ok(AbiValue::Str(s)),
            RawModel::Bytes(b) => Ok(AbiValue::Str(lossy_text(b))),
            RawModel::Address(_) => Err(cannot_coerce(raw, "string"@)),
        }
    } else if base == "bytes"@ {
        match raw {
            RawModel::Bytes(b) => Ok(AbiValue::Bytes(b)),
            RawModel::Str(s) => match hex_bytes(s) {
                Ok(b) => Ok(AbiValue::Bytes(b)),
                Err(e) => Err(e),
            },
            RawModel::Address(_) => Err(cannot_coerce(raw, "bytes"@)),
        }
    } else {
        Err("unsupported schema type: "@ + base)
    }
}

fn refuse(raw: &Raw, ty: &str) -> (e: String)
    ensures
        e@ == cannot_coerce(raw@, ty@),
{
    let mut e = "cannot coerce ".to_owned();
    e.append(raw.describe().as_str());
    e.append(" into ");
    e.append(ty);
    e
}

fn any_nonzero(b: &[u8]) -> (r: bool)
    ensures
        r == (exists|i: int| 0 <= i < b@.len() && #[trigger] b@[i] != 0),
{
    let mut i: usize = 0;
    while i < b.len()
        invariant
            i <= b@.len(),
            forall|k: int| 0 <= k < i ==> b@[k] == 0,
        decreases b@.len() - i,
    {
        if b[i] != 0 {
            return true;
        }
        i += 1;
    }
    false
}

/// Coerce a collected raw value into the `Val` demanded by a schema field's Solidity type.
/// `raw` is the canonical form each collector produces: big-endian bytes for numerics/bytes32,
/// 20-byte address, or a UTF-8 string for `string`.
pub fn coerce(field_ty: &str, raw: &Raw) -> (r: Result<Val, String>)
    ensures
        match r {
            Ok(v) => coerced(field_ty@, raw@) == Ok::<AbiValue, Seq<char>>(v@) && well_formed(v@),
            Err(e) => coerced(field_ty@, raw@) == Err::<AbiValue, Seq<char>>(e@),
        },
{
    let base = trim(field_ty);
    if starts_with(base, "uint") {
        match raw {
            Raw::Bytes(be) => Val::uint_be(be.as_slice()),
            Raw::Str(s) => match hex_to_bytes(s.as_str()) {
                Ok(be) => Val::uint_be(be.as_slice()),
                Err(e) => Err(e),
            },
            Raw::Address(a) => Val::uint_be(a.as_slice()),
        }
    } else if same(base, "address") {
        match raw {
            Raw::Address(a) => Ok(Val::Address(*a)),
            Raw::Bytes(b) => if b.len() == 20 {
                Ok(Val::Address(array20(b.as_slice())))
            } else if b.len() == 32 {
                assert(b@.subrange(12, 32) =~= b@.skip(12));
                Ok(Val::Address(array20(vstd::slice::slice_subrange(b.as_slice(), 12, 32))))
            } else {
                Err(refuse(raw, "address"))
            },
            Raw::Str(_) => Err(refuse(raw, "address")),
        }
    } else if same(base, "bool") {
        match raw {
            Raw::Bytes(b) => Ok(Val::Bool(any_nonzero(b.as_slice()))),
            _ => Err(refuse(raw, "bool")),
        }
    } else if same(base, "bytes32") {
        match raw {
            Raw::Bytes(b) => Ok(Val::FixedBytes32(right_pad32(b.as_slice()))),
            _ => Err(refuse(raw, "bytes32")),
        }
    } else if same(base, "string") {
        match raw {
            Raw::Str(s) => Ok(Val::Str(s.clone())),
            Raw::Bytes(b) => Ok(Val::Str(from_utf8_lossy(b.as_slice()))),
            Raw::Address(_) => Err(refuse(raw, "string")),
        }
    } else if same(base, "bytes") {
        match raw {
            Raw::Bytes(b) => Ok(Val::Bytes(slice_to_vec(b.as_slice()))),
            Raw::Str(s) => match hex_to_bytes(s.as_str()) {
                Ok(b) => Ok(Val::Bytes(b)),
                Err(e) => Err(e),
            },
            Raw::Address(_) => Err(refuse(raw, "bytes")),
        }
    } else {
        let mut e = "unsupported schema type: ".to_owned();
        e.append(base);
        Err(e)
    }
}

/// The first `n` values, each coerced to the type of the field in the same place; the error of the
/// first that cannot be.
pub open spec fn coerced_upto(fields: Seq<FieldModel>, values: Seq<RawModel>, n: nat) -> Result<
    Seq<AbiValue>,
    Seq<char>,
>
    decreases n,
{
    if n == 0 {
        Ok(Seq::empty())
    } else {
        match coerced_upto(fields, values, (n - 1) as nat) {
            Err(e) => Err(e),
            Ok(vs) => match coerced(fields[n - 1].ty, values[n - 1]) {
                Err(e) => Err(e),
                Ok(v) => Ok(vs.push(v)),
            },
        }
    }
}

/// The schema payload: the encoding of the collected values as the fields' types, in order.
pub open spec fn schema_data(fields: Seq<FieldModel>, values: Seq<RawModel>) -> Result<
    Seq<u8>,
    Seq<char>,
> {
    if fields.len() != values.len() {
        Err(
            "schema has "@ + decimal_text(fields.len()) + " fields but "@ + decimal_text(
                values.len(),
            ) + " values were collected"@,
        )
    } else {
        match coerced_upto(fields, values, fields.len()) {
            Err(e) => Err(e),
            Ok(vs) => Ok(list_encoding(vs)),
        }
    }
}

proof fn lemma_first_error_stays(fields: Seq<FieldModel>, values: Seq<RawModel>, i: nat, n: nat)
    requires
        i <= n,
        coerced_upto(fields, values, i) is Err,
    ensures
        coerced_upto(fields, values, n) == coerced_upto(fields, values, i),
    decreases n - i,
{
    if i < n {
        lemma_first_error_stays(fields, values, i, (n - 1) as nat);
    }
}

/// ABI-encode collected values against the parsed schema, field by field.
pub fn encode_schema_data(fields: &[SchemaField], values: &[Raw]) -> (r: Result<Vec<u8>, String>)
    ensures
        match r {
            Ok(data) => schema_data(field_models(fields@), raw_models(values@)) == Ok::<
                Seq<u8>,
                Seq<char>,
            >(data@),
            Err(e) => schema_data(field_models(fields@), raw_models(values@)) == Err::<
                Seq<u8>,
                Seq<char>,
            >(e@),
        },
{
    if fields.len() != values.len() {
        let mut e = "schema has ".to_owned();
        e.append(decimal(fields.len() as u128).as_str());
        e.append(" fields but ");
        e.append(decimal(values.len() as u128).as_str());
        e.append(" values were collected");
        return Err(e);
    }
    let ghost fs = field_models(fields@);
    let ghost rs = raw_models(values@);
    let mut vals: Vec<Val> = Vec::new();
    let mut i: usize = 0;
    assert(val_models(vals@) =~= Seq::<AbiValue>::empty());
    while i < fields.len()
        invariant
            i <= fields@.len(),
            fields@.len() == values@.len(),
            fs == field_models(fields@),
            rs == raw_models(values@),
            coerced_upto(fs, rs, i as nat) == Ok::<Seq<AbiValue>, Seq<char>>(val_models(vals@)),
            all_well_formed(val_models(vals@)),
        decreases fields@.len() - i,
    {
        let ghost before = val_models(vals@);
        match coerce(fields[i].ty.as_str(), &values[i]) {
            Ok(v) => {
                vals.push(v);
                assert(val_models(vals@) =~= before.push(v@));
            },
            Err(e) => {
                proof {
                    lemma_first_error_stays(fs, rs, (i + 1) as nat, fs.len());
                }
                return Err(e);
            },
        }
        i += 1;
    }
    Ok(encode(vals.as_slice()))
}

// ---- laws -----------------------------------------------------------------------------

proof fn lemma_first_at(x: Seq<char>, t: Seq<char>, c: char)
    ensures
        0 <= first_at(x, c) <= x.len(),
        first_at(x, c) < x.len() ==> first_at(x + t, c) == first_at(x, c),
        first_at(x, c) == x.len() ==> first_at(x + t, c) == x.len() + first_at(t, c),
        0 <= first_at(t, c) <= t.len(),
    decreases x.len() + t.len(),
{
    if x.len() > 0 {
        lemma_first_at(x.skip(1), t, c);
        assert((x + t).skip(1) =~= x.skip(1) + t);
    } else {
        assert(x + t =~= t);
        if t.len() > 0 {
            lemma_first_at(x, t.skip(1), c);
        }
    }
}

proof fn lemma_fields_blank_front(c: char, s: Seq<char>)
    requires
        is_white(c),
    ensures
        fields_of(seq![c] + s) == fields_of(s),
{
    let t = seq![c] + s;
    assert(t.skip(1) =~= s);
    lemma_first_at(s, Seq::empty(), ',');
    let at = first_at(s, ',');
    assert(first_at(t, ',') == at + 1);
    assert(t.take(at + 1) =~= seq![c] + s.take(at));
    lemma_trimmed_blank(s.take(at), c);
    if at < s.len() {
        assert(t.skip(at + 2) =~= s.skip(at + 1));
    }
}

proof fn lemma_fields_same_tail(x: Seq<char>, y: Seq<char>, z: Seq<char>)
    requires
        forall|w: Seq<char>|
            first_at(w, ',') == w.len() && w.is_suffix_of(x) ==> #[trigger] fields_of(w + y)
                == fields_of(w + z),
    ensures
        fields_of(x + y) == fields_of(x + z),
    decreases x.len(),
{
    lemma_first_at(x, y, ',');
    lemma_first_at(x, z, ',');
    let at = first_at(x, ',');
    assert(x.is_suffix_of(x));
    if at < x.len() {
        let r = x.skip(at + 1);
        assert((x + y).take(at) =~= x.take(at));
        assert((x + z).take(at) =~= x.take(at));
        assert((x + y).skip(at + 1) =~= r + y);
        assert((x + z).skip(at + 1) =~= r + z);
        assert(r.is_suffix_of(x));
        assert forall|w: Seq<char>|
            first_at(w, ',') == w.len() && w.is_suffix_of(r) implies #[trigger] fields_of(w + y)
            == fields_of(w + z) by {
            assert(w =~= x.skip(x.len() - w.len()));
            assert(w.is_suffix_of(x));
        }
        lemma_fields_same_tail(r, y, z);
    }
}

/// White space at either end of a definition does not matter.
pub proof fn law_blank_around_definition(c: char, s: Seq<char>)
    requires
        is_white(c),
    ensures
        schema_fields(seq![c] + s) == schema_fields(s),
        schema_fields(s.push(c)) == schema_fields(s),
{
    lemma_fields_blank_front(c, s);
    let e = Seq::<char>::empty();
    assert forall|w: Seq<char>| first_at(w, ',') == w.len() implies #[trigger] fields_of(
        w + seq![c],
    ) == fields_of(w + e) by {
        lemma_first_at(w, seq![c], ',');
        lemma_first_at(w, e, ',');
        lemma_trimmed_blank(w, c);
        assert(w + seq![c] =~= w.push(c));
        assert(w + e =~= w);
        assert(seq![c].skip(1) =~= e);
        assert(first_at(w.push(c), ',') == w.len() + 1);
        assert(w.push(c).take((w.len() + 1) as int) =~= w.push(c));
        assert(w.take(w.len() as int) =~= w);
    }
    lemma_fields_same_tail(s, seq![c], e);
    assert(s + seq![c] =~= s.push(c));
    assert(s + e =~= s);
}

/// White space on either side of a comma does not matter.
pub proof fn law_blank_around_comma(x: Seq<char>, c: char, y: Seq<char>)
    requires
        is_white(c),
    ensures
        schema_fields(x + (seq![',', c] + y)) == schema_fields(x + (seq![','] + y)),
        schema_fields(x + (seq![c, ','] + y)) == schema_fields(x + (seq![','] + y)),
{
    let plain = seq![','] + y;
    let after = seq![',', c] + y;
    let before = seq![c, ','] + y;
    assert(first_at(plain, ',') == 0);
    assert(first_at(after, ',') == 0);
    assert(before.skip(1) =~= plain);
    assert(first_at(before, ',') == 1);
    assert forall|w: Seq<char>| first_at(w, ',') == w.len() implies #[trigger] fields_of(w + after)
        == fields_of(w + plain) by {
        lemma_first_at(w, after, ',');
        lemma_first_at(w, plain, ',');
        let n = w.len() as int;
        assert((w + after).take(n) =~= w);
        assert((w + plain).take(n) =~= w);
        assert((w + after).skip(n + 1) =~= seq![c] + y);
        assert((w + plain).skip(n + 1) =~= y);
        lemma_fields_blank_front(c, y);
    }
    lemma_fields_same_tail(x, after, plain);
    assert forall|w: Seq<char>| first_at(w, ',') == w.len() implies #[trigger] fields_of(w + before)
        == fields_of(w + plain) by {
        lemma_first_at(w, before, ',');
        lemma_first_at(w, plain, ',');
        let n = w.len() as int;
        assert((w + before).take(n + 1) =~= w.push(c));
        assert((w + plain).take(n) =~= w);
        assert((w + before).skip(n + 2) =~= y);
        assert((w + plain).skip(n + 1) =~= y);
        lemma_trimmed_blank(w, c);
    }
    lemma_fields_same_tail(x, before, plain);
}

/// A trailing comma does not matter.
pub proof fn law_trailing_comma(s: Seq<char>)
    ensures
        schema_fields(s.push(',')) == schema_fields(s),
{
    let e = Seq::<char>::empty();
    let comma = seq![','];
    assert(trimmed(e) =~= e);
    assert(e.take(0) =~= e);
    assert(fields_of(e) == Ok::<Seq<FieldModel>, Seq<char>>(Seq::empty()));
    assert forall|w: Seq<char>| first_at(w, ',') == w.len() implies #[trigger] fields_of(w + comma)
        == fields_of(w + e) by {
        lemma_first_at(w, comma, ',');
        lemma_first_at(w, e, ',');
        let n = w.len() as int;
        assert((w + comma).take(n) =~= w);
        assert((w + comma).skip(n + 1) =~= e);
        assert(w + e =~= w);
        assert(w.take(n) =~= w);
        let first = match field_of(w) {
            Ok(Some(f)) => seq![f],
            _ => Seq::empty(),
        };
        assert(first + Seq::<FieldModel>::empty() =~= first);
    }
    lemma_fields_same_tail(s, comma, e);
    assert(s + comma =~= s.push(','));
    assert(s + e =~= s);
}

/// A number that was collected for an integer field of any width is attested as that number: as a
/// 32-byte word that spells it.
pub proof fn law_number_attested(ty: Seq<char>, be: Seq<u8>)
    requires
        "uint"@.is_prefix_of(trimmed(ty)),
        be.len() <= 32,
    ensures
        match coerced(ty, RawModel::Bytes(be)) {
            Ok(v) => value_encoding(v).len() == 32 && be_value(value_encoding(v)) == be_value(be),
            Err(_) => false,
        },
{
    law_uint_word(be);
}

/// The payload of a schema holds one value for each field, in order; each is what was collected,
/// coerced to the field's type, and can be read from the payload at its own place.
pub proof fn law_payload_in_field_order(
    fields: Seq<FieldModel>,
    values: Seq<RawModel>,
    data: Seq<u8>,
    i: nat,
)
    requires
        schema_data(fields, values) == Ok::<Seq<u8>, Seq<char>>(data),
        i < fields.len(),
    ensures
        fields.len() == values.len(),
        ({
            let all = coerced_upto(fields, values, fields.len())->Ok_0;
            let one = coerced(fields[i as int].ty, values[i as int]);
            let start = item_start(all, i) as int;
            &&& all.len() == fields.len()
            &&& one == Ok::<AbiValue, Seq<char>>(all[i as int])
            &&& start + value_encoding(all[i as int]).len() <= data.len()
            &&& data.subrange(start, start + value_encoding(all[i as int]).len())
                == value_encoding(all[i as int])
        }),
{
    let all = coerced_upto(fields, values, fields.len())->Ok_0;
    lemma_coerced_each(fields, values, fields.len(), i);
    law_layout(all, i);
}

proof fn lemma_coerced_each(fields: Seq<FieldModel>, values: Seq<RawModel>, n: nat, i: nat)
    requires
        coerced_upto(fields, values, n) is Ok,
        i < n,
    ensures
        coerced_upto(fields, values, n)->Ok_0.len() == n,
        coerced(fields[i as int].ty, values[i as int]) == Ok::<AbiValue, Seq<char>>(
            coerced_upto(fields, values, n)->Ok_0[i as int],
        ),
    decreases n,
{
    if i < n - 1 {
        lemma_coerced_each(fields, values, (n - 1) as nat, i);
    } else if n > 1 {
        lemma_coerced_each(fields, values, (n - 1) as nat, (n - 2) as nat);
    } else {
        assert(coerced_upto(fields, values, 0) == Ok::<Seq<AbiValue>, Seq<char>>(Seq::empty()));
    }
}

// ---- what stands where ----------------------------------------------------------------

/// Does `c` call `attest` with one request in which the schema, the receiver, the expiry, whether it
/// can be revoked, the reference, the payload and the value are these?
pub open spec fn calls_attest(
    c: Seq<u8>,
    uid: Seq<u8>,
    recipient: Seq<u8>,
    expiration: nat,
    revocable: bool,
    ref_uid: Seq<u8>,
    data: Seq<u8>,
    value: nat,
) -> bool {
    let args = c.skip(4);
    let request = args.skip(32);
    let inner = request.skip(64);
    &&& c.len() == 4 + 32 + 64 + 192 + 32 + rounded_up(data.len())
    &&& c.take(4) == keccak_digest(
        encode_utf8("attest((bytes32,(address,uint64,bool,bytes32,bytes,uint256)))"@),
    ).take(4)
    &&& be_value(word_at(args, 0)) == 32
    &&& word_at(request, 0) == uid
    &&& be_value(word_at(request, 32)) == 64
    &&& word_at(inner, 0).skip(12) == recipient
    &&& forall|k: int| 0 <= k < 12 ==> #[trigger] word_at(inner, 0)[k] == 0
    &&& be_value(word_at(inner, 32)) == expiration
    &&& be_value(word_at(inner, 64)) == if revocable {
        1nat
    } else {
        0nat
    }
    &&& word_at(inner, 96) == ref_uid
    &&& be_value(word_at(inner, 128)) == 192
    &&& be_value(word_at(inner, 160)) == value
    &&& bytes_stand_at(inner, 192, data)
}

proof fn lemma_u128_width(v: nat)
    requires
        v <= u128::MAX,
    ensures
        be_bytes(v, 16).len() == 16,
        be_value(be_bytes(v, 16)) == v,
{
    crate::bytes::lemma_be_bytes_len(v, 16);
    assert(pow(256, 16) == 0x1_0000_0000_0000_0000_0000_0000_0000_0000int) by {
        reveal(pow);
        reveal_with_fuel(pow, 17);
    }
    crate::bytes::lemma_be_round_trip(v, 16);
}

/// The calldata of `attest` names every part of the request, each in its own word.
pub proof fn law_attest_calldata(
    uid: Seq<u8>,
    recipient: Seq<u8>,
    expiration: nat,
    revocable: bool,
    ref_uid: Seq<u8>,
    data: Seq<u8>,
    value: nat,
)
    requires
        uid.len() == 32,
        recipient.len() == 20,
        expiration <= u128::MAX,
        ref_uid.len() == 32,
        data.len() < 0x8000_0000_0000_0000,
        value <= u128::MAX,
        selector_of(ATTEST_SIG@).len() == 4,
    ensures
        calls_attest(
            call_data(
                ATTEST_SIG@,
                seq![
                    request_value(uid, recipient, expiration, revocable, ref_uid, data, value),
                ],
            ),
            uid,
            recipient,
            expiration,
            revocable,
            ref_uid,
            data,
            value,
        ),
{
    let items = seq![
        AbiValue::Address(recipient),
        AbiValue::Uint(be_bytes(expiration, 16)),
        AbiValue::Bool(revocable),
        AbiValue::FixedBytes32(ref_uid),
        AbiValue::Bytes(data),
        AbiValue::Uint(be_bytes(value, 16)),
    ];
    let inner = AbiValue::Tuple(items);
    let pair = seq![AbiValue::FixedBytes32(uid), inner];
    let request = request_value(uid, recipient, expiration, revocable, ref_uid, data, value);
    assert(request == AbiValue::Tuple(pair));
    lemma_dynamic_member(items, 4);
    lemma_dynamic_member(pair, 1);
    law_one_struct(pair);
    law_word_and_struct(uid, items);
    lemma_u128_width(expiration);
    lemma_u128_width(value);
    assert(all_flat(items));
    assert(all_well_formed(items));
    let e = list_encoding(items);
    lemma_flat_len(items);
    assert(tail_sizes(items, 6) == 32 + rounded_up(data.len())) by {
        reveal_with_fuel(tail_sizes, 7);
    }
    assert(tail_sizes(items, 4) == 0) by {
        reveal_with_fuel(tail_sizes, 5);
    }
    law_flat_words(items, 0);
    law_flat_words(items, 1);
    law_flat_words(items, 2);
    law_flat_words(items, 3);
    law_flat_words(items, 4);
    law_flat_words(items, 5);
    let c = call_data(ATTEST_SIG@, seq![request]);
    assert(c.take(4) =~= selector_of(ATTEST_SIG@));
    assert(c.skip(4) =~= list_encoding(seq![request]));
}

/// Does `c` call `register` with this definition, this resolver, and this word on whether attestations
/// can be revoked?
pub open spec fn calls_register(
    c: Seq<u8>,
    definition: Seq<char>,
    resolver: Seq<u8>,
    revocable: bool,
) -> bool {
    let args = c.skip(4);
    &&& c.len() == 4 + 96 + 32 + rounded_up(encode_utf8(definition).len())
    &&& c.take(4) == keccak_digest(encode_utf8("register(string,address,bool)"@)).take(4)
    &&& be_value(word_at(args, 0)) == 96
    &&& bytes_stand_at(args, 96, encode_utf8(definition))
    &&& word_at(args, 32).skip(12) == resolver
    &&& forall|k: int| 0 <= k < 12 ==> #[trigger] word_at(args, 32)[k] == 0
    &&& be_value(word_at(args, 64)) == if revocable {
        1nat
    } else {
        0nat
    }
}

/// The calldata of `register` names the schema, the resolver and whether attestations under it can
/// be revoked, in this order.
pub proof fn law_register_calldata(definition: Seq<char>, resolver: Seq<u8>, revocable: bool)
    requires
        resolver.len() == 20,
        encode_utf8(definition).len() < 0x8000_0000_0000_0000,
        selector_of(REGISTER_SIG@).len() == 4,
    ensures
        calls_register(
            register_data(definition, resolver, revocable),
            definition,
            resolver,
            revocable,
        ),
{
    let items = seq![
        AbiValue::Str(definition),
        AbiValue::Address(resolver),
        AbiValue::Bool(revocable),
    ];
    let c = register_data(definition, resolver, revocable);
    assert(all_flat(items));
    assert(all_well_formed(items));
    lemma_flat_len(items);
    assert(tail_sizes(items, 3) == 32 + rounded_up(encode_utf8(definition).len())) by {
        reveal_with_fuel(tail_sizes, 4);
    }
    assert(tail_sizes(items, 0) == 0);
    law_flat_words(items, 0);
    law_flat_words(items, 1);
    law_flat_words(items, 2);
    assert(c.take(4) =~= selector_of(REGISTER_SIG@));
    assert(c.skip(4) =~= list_encoding(items));
}

/// The predicted UID is the Keccak digest of the definition's UTF-8 bytes, then the resolver's 20
/// bytes, then one byte for whether attestations can be revoked: `p` is any byte string of that form.
pub proof fn law_schema_uid(definition: Seq<char>, resolver: Seq<u8>, revocable: bool, p: Seq<u8>)
    requires
        p.len() == encode_utf8(definition).len() + 21,
        p.take(p.len() - 21) == encode_utf8(definition),
        p.subrange(p.len() - 21, p.len() - 1) == resolver,
        p.last() == 1 <==> revocable,
        p.last() == 0 <==> !revocable,
    ensures
        schema_uid(definition, resolver, revocable) == keccak_digest(p),
{
    let q = encode_utf8(definition) + resolver + seq![
        if revocable {
            1u8
        } else {
            0u8
        },
    ];
    let n = p.len() - 21;
    assert(p =~= q) by {
        assert forall|k: int| 0 <= k < p.len() implies p[k] == q[k] by {
            if k < n {
                assert(p[k] == p.take(n)[k]);
            } else if k < n + 20 {
                assert(p[k] == p.subrange(n, n + 20)[k - n]);
            }
        }
    }
}

/// Can `raw` be attested in a field of type `ty`? A number must have at most 32 bytes, an address 20
/// of them, or 32 of which the last 20 count; a text for a number or for bytes must spell them in
/// hexadecimal.
pub open spec fn suits(ty: Seq<char>, raw: RawModel) -> bool {
    let base = trimmed(ty);
    if base.len() >= 4 && base.take(4) == "uint"@ {
        match raw {
            RawModel::Bytes(b) => b.len() <= 32,
            RawModel::Address(a) => a.len() <= 32,
            RawModel::Str(s) => match hex_bytes(s) {
                Ok(b) => b.len() <= 32,
                Err(_) => false,
            },
        }
    } else if base == "address"@ {
        match raw {
            RawModel::Bytes(b) => b.len() == 20 || b.len() == 32,
            RawModel::Address(_) => true,
            RawModel::Str(_) => false,
        }
    } else if base == "bytes"@ {
        match raw {
            RawModel::Bytes(_) => true,
            RawModel::Address(_) => false,
            RawModel::Str(s) => hex_bytes(s) is Ok,
        }
    } else if base == "string"@ {
        !(raw is Address)
    } else {
        (base == "bool"@ || base == "bytes32"@) && raw is Bytes
    }
}

/// Does the word of `data` at `at` stand for `raw` in a field of type `ty`? A number by its value, an
/// address behind twelve zero bytes, a truth value by whether the number is zero, a fixed word by its
/// first 32 bytes with zero bytes behind; texts and bytes where the word says.
pub open spec fn attests(data: Seq<u8>, at: int, ty: Seq<char>, raw: RawModel) -> bool {
    let base = trimmed(ty);
    let w = word_at(data, at);
    &&& at + 32 <= data.len()
    &&& base.len() >= 4 && base.take(4) == "uint"@ ==> match raw {
        RawModel::Bytes(b) => be_value(w) == be_value(b),
        RawModel::Address(a) => be_value(w) == be_value(a),
        RawModel::Str(s) => be_value(w) == be_value(hex_bytes(s)->Ok_0),
    }
    &&& base == "address"@ ==> {
        &&& forall|k: int| 0 <= k < 12 ==> #[trigger] w[k] == 0
        &&& match raw {
            RawModel::Bytes(b) => w.skip(12) == b.skip(b.len() - 20),
            RawModel::Address(a) => w.skip(12) == a,
            RawModel::Str(_) => false,
        }
    }
    &&& base == "bool"@ ==> match raw {
        RawModel::Bytes(b) => be_value(w) == if be_value(b) == 0 {
            0nat
        } else {
            1nat
        },
        _ => false,
    }
    &&& base == "bytes32"@ ==> match raw {
        RawModel::Bytes(b) => forall|k: int|
            0 <= k < 32 ==> #[trigger] w[k] == if k < b.len() {
                b[k]
            } else {
                0
            },
        _ => false,
    }
    &&& base == "string"@ ==> match raw {
        RawModel::Str(s) => bytes_stand_at(data, be_value(w) as int, encode_utf8(s)),
        RawModel::Bytes(b) => valid_utf8(b) ==> bytes_stand_at(data, be_value(w) as int, b),
        RawModel::Address(_) => false,
    }
    &&& base == "bytes"@ ==> match raw {
        RawModel::Bytes(b) => bytes_stand_at(data, be_value(w) as int, b),
        RawModel::Str(s) => bytes_stand_at(data, be_value(w) as int, hex_bytes(s)->Ok_0),
        RawModel::Address(_) => false,
    }
}

proof fn lemma_type_names(base: Seq<char>)
    ensures
        base == "address"@ || base == "bool"@ || base == "bytes32"@ || base == "string"@ || base
            == "bytes"@ ==> !"uint"@.is_prefix_of(base) && !(base.len() >= 4 && base.take(4)
            == "uint"@),
        "uint"@.is_prefix_of(base) <==> base.len() >= 4 && base.take(4) == "uint"@,
        "address"@ != "bool"@,
        "address"@ != "bytes32"@,
        "address"@ != "string"@,
        "address"@ != "bytes"@,
        "bool"@ != "bytes32"@,
        "bool"@ != "string"@,
        "bool"@ != "bytes"@,
        "bytes32"@ != "string"@,
        "bytes32"@ != "bytes"@,
        "string"@ != "bytes"@,
{
    reveal_strlit("uint");
    reveal_strlit("address");
    reveal_strlit("bool");
    reveal_strlit("bytes32");
    reveal_strlit("string");
    reveal_strlit("bytes");
    assert("address"@.len() == 7 && "bool"@.len() == 4 && "bytes32"@.len() == 7 && "string"@.len()
        == 6 && "bytes"@.len() == 5);
    assert("address"@[0] == 'a' && "bool"@[0] == 'b' && "bytes32"@[0] == 'b' && "string"@[0] == 's'
        && "bytes"@[0] == 'b');
    assert("uint"@[0] == 'u' && "uint"@.len() == 4);
    if base.len() >= 4 {
        assert(base.take(4)[0] == base[0]);
        if "uint"@.is_prefix_of(base) {
            assert(base.take(4) =~= "uint"@);
        }
        if base.take(4) == "uint"@ {
            assert("uint"@ =~= base.subrange(0, 4));
        }
    }
}

proof fn lemma_zero_number(b: Seq<u8>)
    ensures
        be_value(b) != 0 <==> exists|i: int| 0 <= i < b.len() && #[trigger] b[i] != 0,
    decreases b.len(),
{
    if b.len() > 0 {
        let front = b.drop_last();
        lemma_zero_number(front);
        assert(b.last() == b[b.len() - 1]);
        if exists|i: int| 0 <= i < front.len() && #[trigger] front[i] != 0 {
            let i = choose|i: int| 0 <= i < front.len() && #[trigger] front[i] != 0;
            assert(b[i] != 0);
        }
        if exists|i: int| 0 <= i < b.len() && #[trigger] b[i] != 0 {
            let i = choose|i: int| 0 <= i < b.len() && #[trigger] b[i] != 0;
            if i < front.len() {
                assert(front[i] != 0);
            }
        }
    }
}

/// A collected value is taken for a field exactly where it suits the field's type.
pub proof fn law_coerced(ty: Seq<char>, raw: RawModel)
    ensures
        coerced(ty, raw) is Ok <==> suits(ty, raw),
{
    lemma_type_names(trimmed(ty));
}

/// No collected value is an address of another length than 20.
pub open spec fn raws_in_range(values: Seq<RawModel>) -> bool {
    forall|i: int|
        0 <= i < values.len() ==> match #[trigger] values[i] {
            RawModel::Address(a) => a.len() == 20,
            _ => true,
        }
}

proof fn lemma_coerced_flat(ty: Seq<char>, raw: RawModel)
    requires
        match raw {
            RawModel::Address(a) => a.len() == 20,
            _ => true,
        },
    ensures
        match coerced(ty, raw) {
            Ok(v) => flat(v) && well_formed(v),
            Err(_) => true,
        },
{
    lemma_type_names(trimmed(ty));
}

proof fn lemma_attested(data: Seq<u8>, at: int, ty: Seq<char>, raw: RawModel)
    requires
        match coerced(ty, raw) {
            Ok(v) => stands_at(data, at, v),
            Err(_) => false,
        },
    ensures
        attests(data, at, ty, raw),
{
    let base = trimmed(ty);
    let w = word_at(data, at);
    lemma_type_names(base);
    if base == "bool"@ {
        lemma_zero_number(raw->Bytes_0);
    } else if base == "address"@ {
        match raw {
            RawModel::Bytes(b) => {
                assert(b.skip(b.len() - 20) =~= if b.len() == 20 {
                    b
                } else {
                    b.skip(12)
                });
            },
            _ => {},
        }
    } else if base == "bytes32"@ {
        let b = raw->Bytes_0;
        assert(w == right_padded32(b));
    } else if base == "string"@ {
        match raw {
            RawModel::Bytes(b) => {
                if valid_utf8(b) {
                    decode_utf8_encode_utf8(b);
                }
            },
            _ => {},
        }
    }
}

/// The payload of an attestation holds one word for each field, in order, and each stands for what
/// was collected for that field: a number as that number, an address as that address, and so on. What
/// the words point to stands behind them, in order, without gaps.
pub proof fn law_payload_words(fields: Seq<FieldModel>, values: Seq<RawModel>, i: nat)
    requires
        raws_in_range(values),
        i < fields.len(),
    ensures
        match schema_data(fields, values) {
            Ok(data) => {
                &&& values.len() == fields.len()
                &&& data.len() >= 32 * fields.len()
                &&& data.len() % 32 == 0
                &&& data.len() < 0x1_0000_0000_0000_0000 ==> attests(
                    data,
                    32 * i as int,
                    fields[i as int].ty,
                    values[i as int],
                )
            },
            Err(_) => true,
        },
{
    if let Ok(data) = schema_data(fields, values) {
        let all = coerced_upto(fields, values, fields.len())->Ok_0;
        lemma_coerced_each(fields, values, fields.len(), i);
        assert forall|k: int| 0 <= k < all.len() implies flat(#[trigger] all[k]) && well_formed(
            all[k],
        ) by {
            lemma_coerced_each(fields, values, fields.len(), k as nat);
            lemma_coerced_flat(fields[k].ty, values[k]);
        }
        assert(all_flat(all));
        assert(all_well_formed(all));
        lemma_flat_len(all);
        crate::abi::law_aligned(all);
        if data.len() < 0x1_0000_0000_0000_0000 {
            law_flat_words(all, i);
            lemma_attested(data, 32 * i as int, fields[i as int].ty, values[i as int]);
        }
    }
}

proof fn lemma_coerced_all(fields: Seq<FieldModel>, values: Seq<RawModel>, n: nat)
    requires
        forall|i: int| 0 <= i < n ==> suits((#[trigger] fields[i]).ty, values[i]),
    ensures
        coerced_upto(fields, values, n) is Ok,
    decreases n,
{
    if n > 0 {
        lemma_coerced_all(fields, values, (n - 1) as nat);
        assert(suits(fields[n - 1].ty, values[n - 1]));
        law_coerced(fields[n - 1].ty, values[n - 1]);
    }
}

/// There is a payload exactly where there are as many values as fields and each value suits its
/// field.
pub proof fn law_payload_possible(fields: Seq<FieldModel>, values: Seq<RawModel>)
    ensures
        schema_data(fields, values) is Ok <==> fields.len() == values.len() && forall|i: int|
            0 <= i < fields.len() ==> suits((#[trigger] fields[i]).ty, values[i]),
{
    if schema_data(fields, values) is Ok {
        assert forall|i: int| 0 <= i < fields.len() implies suits(
            (#[trigger] fields[i]).ty,
            values[i],
        ) by {
            lemma_coerced_each(fields, values, fields.len(), i as nat);
            law_coerced(fields[i].ty, values[i]);
        }
    } else if fields.len() == values.len() {
        if forall|i: int| 0 <= i < fields.len() ==> suits((#[trigger] fields[i]).ty, values[i]) {
            lemma_coerced_all(fields, values, fields.len());
        }
    }
}

// ---- schema definitions ---------------------------------------------------------------

/// A part of a definition declares the field whose type is its first word and whose name is its
/// second; what stands behind the second word is passed over.
pub proof fn law_field_declared(
    a: Seq<char>,
    ty: Seq<char>,
    b: Seq<char>,
    name: Seq<char>,
    more: Seq<char>,
)
    requires
        all_white(a),
        is_word(ty),
        all_white(b),
        b.len() > 0,
        is_word(name),
        more.len() == 0 || is_white(more[0]),
    ensures
        field_of(a + ty + b + name + more) == Ok::<Option<FieldModel>, Seq<char>>(
            Some(FieldModel { ty, name }),
        ),
{
    let x = ty + b + name + more;
    assert(a + ty + b + name + more =~= a + x);
    assert(x[0] == ty[0]);
    assert(!is_white(ty[0]));
    lemma_white_skipped(a, x);
    lemma_trimmed_end_front(x);
    let p = trimmed_end(x);
    let at = ty.len() + b.len() + name.len() - 1;
    assert(x[at] == name[name.len() - 1]);
    assert(!is_white(x[at]));
    let kept = p.skip(at + 1);
    assert(p =~= x.take(p.len() as int));
    assert(p =~= ty + (b + (name + kept)));
    if kept.len() > 0 {
        assert(kept[0] == x[at + 1]);
        assert(x[at + 1] == more[0]);
    }
    let rest = b + (name + kept);
    assert(is_white(b[0]));
    assert(rest[0] == b[0]);
    lemma_word_ends(ty, rest);
    assert(p.take(ty.len() as int) =~= ty);
    assert(p.skip(ty.len() as int) =~= rest);
    assert((name + kept)[0] == name[0]);
    assert(!is_white(name[0]));
    lemma_white_skipped(b, name + kept);
    lemma_word_ends(name, kept);
    assert((name + kept).take(name.len() as int) =~= name);
}

/// A blank part of a definition declares nothing, and one of a single word is refused.
pub proof fn law_field_missing(a: Seq<char>, ty: Seq<char>, b: Seq<char>)
    requires
        all_white(a),
        is_word(ty),
        all_white(b),
    ensures
        field_of(a) == Ok::<Option<FieldModel>, Seq<char>>(None),
        field_of(a + ty + b) is Err,
{
    let e = Seq::<char>::empty();
    law_trimmed(a, e, e);
    assert(a + e + e =~= a);
    assert(!is_white(ty[0]) && !is_white(ty[ty.len() - 1]));
    law_trimmed(a, ty, b);
    lemma_word_ends(ty, e);
    assert(ty + e =~= ty);
    assert(ty.skip(ty.len() as int) =~= e);
}

/// A definition is read part by part, from comma to comma: the fields are those of the first part,
/// then those of the rest.
pub proof fn law_fields_in_order(part: Seq<char>, rest: Seq<char>)
    requires
        forall|i: int| 0 <= i < part.len() ==> #[trigger] part[i] != ',',
    ensures
        fields_of(part) == (match field_of(part) {
            Ok(Some(f)) => Ok(seq![f]),
            Ok(None) => Ok(Seq::empty()),
            Err(e) => Err(e),
        }),
        fields_of(part + seq![','] + rest) == (match (field_of(part), fields_of(rest)) {
            (Err(e), _) => Err(e),
            (_, Err(e)) => Err(e),
            (Ok(Some(f)), Ok(more)) => Ok(seq![f] + more),
            (Ok(None), Ok(more)) => Ok(more),
        }),
{
    let e = Seq::<char>::empty();
    let tail = seq![','] + rest;
    let n = part.len() as int;
    lemma_no_comma(part);
    lemma_first_at(part, tail, ',');
    assert(part.take(n) =~= part);
    let s = part + seq![','] + rest;
    assert(s =~= part + tail);
    assert(first_at(tail, ',') == 0);
    assert(s.take(n) =~= part);
    assert(s.skip(n + 1) =~= rest);
    if let Ok(more) = fields_of(rest) {
        assert(Seq::<FieldModel>::empty() + more =~= more);
    }
}

proof fn lemma_no_comma(s: Seq<char>)
    requires
        forall|i: int| 0 <= i < s.len() ==> #[trigger] s[i] != ',',
    ensures
        first_at(s, ',') == s.len(),
    decreases s.len(),
{
    if s.len() > 0 {
        assert(s[0] != ',');
        assert forall|i: int| 0 <= i < s.skip(1).len() implies #[trigger] s.skip(1)[i] != ',' by {
            assert(s[i + 1] != ',');
        }
        lemma_no_comma(s.skip(1));
    }
}

/// The fields of a schema are those that its definition declares; a definition that declares none is
/// refused.
pub proof fn law_schema_fields(definition: Seq<char>)
    ensures
        match fields_of(definition) {
            Ok(fields) => if fields.len() > 0 {
                schema_fields(definition) == Ok::<Seq<FieldModel>, Seq<char>>(fields)
            } else {
                schema_fields(definition) is Err
            },
            Err(e) => schema_fields(definition) == Err::<Seq<FieldModel>, Seq<char>>(e),
        },
{
}

/// What is said of a collected value that does not suit its field: that the number is too wide, that
/// the text is no hexadecimal form, that the value cannot be read as the type, or that the type is not
/// known.
pub proof fn law_unsuitable(ty: Seq<char>, raw: RawModel)
    ensures
        ({
            let base = trimmed(ty);
            let cannot = "cannot coerce "@ + raw_text(raw) + " into "@ + base;
            &&& base.len() >= 4 && base.take(4) == "uint"@ ==> match raw {
                RawModel::Bytes(b) => b.len() > 32 ==> coerced(ty, raw) == Err::<
                    AbiValue,
                    Seq<char>,
                >("uint too wide: "@ + decimal_text(b.len()) + " bytes"@),
                RawModel::Address(_) => true,
                RawModel::Str(s) => match hex_bytes(s) {
                    Ok(b) => b.len() > 32 ==> coerced(ty, raw) == Err::<AbiValue, Seq<char>>(
                        "uint too wide: "@ + decimal_text(b.len()) + " bytes"@,
                    ),
                    Err(e) => coerced(ty, raw) == Err::<AbiValue, Seq<char>>(e),
                },
            }
            &&& base == "bytes"@ && raw is Str && hex_bytes(raw->Str_0) is Err ==> coerced(ty, raw)
                == Err::<AbiValue, Seq<char>>(hex_bytes(raw->Str_0)->Err_0)
            &&& base == "address"@ || base == "bool"@ || base == "bytes32"@ || base == "string"@
                || (base == "bytes"@ && !(raw is Str)) ==> !suits(ty, raw) ==> coerced(ty, raw)
                == Err::<AbiValue, Seq<char>>(cannot)
            &&& !(base.len() >= 4 && base.take(4) == "uint"@) && base != "address"@ && base
                != "bool"@ && base != "bytes32"@ && base != "string"@ && base != "bytes"@
                ==> coerced(ty, raw) == Err::<AbiValue, Seq<char>>(
                "unsupported schema type: "@ + base,
            )
        }),
{
    lemma_type_names(trimmed(ty));
}

/// A collected value is named by what it holds: its bytes as decimal numbers, or its text in quotes.
pub proof fn law_raw_named(raw: RawModel)
    ensures
        match raw {
            RawModel::Bytes(b) => raw_text(raw) == "Bytes(["@ + joined(
                Seq::new(b.len(), |i: int| decimal_text(b[i] as nat)),
                ", "@,
            ) + "])"@,
            RawModel::Address(b) => raw_text(raw) == "Address(["@ + joined(
                Seq::new(b.len(), |i: int| decimal_text(b[i] as nat)),
                ", "@,
            ) + "])"@,
            RawModel::Str(s) => raw_text(raw) == "Str("@ + quoted_text(s) + ")"@,
        },
{
    reveal_strlit("Bytes([");
    reveal_strlit("Bytes(");
    reveal_strlit("Address([");
    reveal_strlit("Address(");
    reveal_strlit("[");
    reveal_strlit("]");
    reveal_strlit(")");
    reveal_strlit("])");
    match raw {
        RawModel::Bytes(b) => {
            let list = Seq::new(b.len(), |i: int| decimal_text(b[i] as nat));
            assert(b.map_values(|x: u8| decimal_text(x as nat)) =~= list);
            assert(raw_text(raw) =~= "Bytes(["@ + joined(list, ", "@) + "])"@);
        },
        RawModel::Address(b) => {
            let list = Seq::new(b.len(), |i: int| decimal_text(b[i] as nat));
            assert(b.map_values(|x: u8| decimal_text(x as nat)) =~= list);
            assert(raw_text(raw) =~= "Address(["@ + joined(list, ", "@) + "])"@);
        },
        RawModel::Str(s) => {},
    }
}

/// What is said of a definition without fields, and of a part of one without a name.
pub proof fn law_definition_refused(a: Seq<char>, ty: Seq<char>, b: Seq<char>, definition: Seq<char>)
    requires
        all_white(a),
        is_word(ty),
        all_white(b),
    ensures
        field_of(a + ty + b) == Err::<Option<FieldModel>, Seq<char>>(
            "schema field has no name: "@ + quoted_text(ty),
        ),
        match fields_of(definition) {
            Ok(fields) => fields.len() == 0 ==> schema_fields(definition) == Err::<
                Seq<FieldModel>,
                Seq<char>,
            >("schema definition is empty"@),
            Err(_) => true,
        },
{
    law_field_missing(a, ty, b);
    assert(!is_white(ty[0]) && !is_white(ty[ty.len() - 1]));
    law_trimmed(a, ty, b);
}

/// The calldata of a request names the request's own fields.
pub proof fn law_request_calldata(req: AttestationRequest)
    requires
        req.data@.len() < 0x8000_0000_0000_0000,
        selector_of(ATTEST_SIG@).len() == 4,
    ensures
        calls_attest(
            req.attest_data(),
            req.schema_uid@,
            req.recipient@,
            req.expiration_time as nat,
            req.revocable,
            req.ref_uid@,
            req.data@,
            req.value as nat,
        ),
{
    law_attest_calldata(
        req.schema_uid@,
        req.recipient@,
        req.expiration_time as nat,
        req.revocable,
        req.ref_uid@,
        req.data@,
        req.value as nat,
    );
}

/// A field and a collected value stand for what they hold, and lists of them item by item.
pub proof fn law_eas_views(f: SchemaField, raw: Raw, fields: Seq<SchemaField>, values: Seq<Raw>)
    ensures
        f@.ty == f.ty@,
        f@.name == f.name@,
        match raw {
            Raw::Bytes(b) => raw@ == RawModel::Bytes(b@),
            Raw::Address(a) => raw@ == RawModel::Address(a@),
            Raw::Str(s) => raw@ == RawModel::Str(s@),
        },
        field_models(fields).len() == fields.len(),
        forall|i: int| 0 <= i < fields.len() ==> #[trigger] field_models(fields)[i] == fields[i]@,
        raw_models(values).len() == values.len(),
        forall|i: int| 0 <= i < values.len() ==> #[trigger] raw_models(values)[i] == values[i]@,
{
}

} // verus!
