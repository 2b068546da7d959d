//! Packing an execution payload into blobs, and reading it back.
//!
//! The payload is an SSZ container. Its bytes, behind a 4-byte big-endian length prefix, are spread
//! 31 bytes at a time across the low bytes of each 32-byte field element and zero-padded to a whole
//! number of blobs. The most significant byte of a field element stays zero, so that every field
//! element is a canonical scalar.

use crate::arith::{fitting, safe_add, safe_mul, ArithError};
use crate::containers::{blobs_of, copy_bytes, Blob, ContainerError};
use crate::error::{ErrorView, PayloadColumnError};
use crate::eth_spec::{
    EthSpec, BYTES_PER_BLOB, BYTES_PER_FIELD_ELEMENT, FIELD_ELEMENTS_PER_BLOB,
    MAX_BLOB_COMMITMENTS_PER_BLOCK,
};
use crate::kzg::{big_endian, canonical, field_element, field_modulus};
use ssz::{Decode, Encode};
use vstd::arithmetic::div_mod::lemma_div_denominator;
use vstd::prelude::*;

verus! {

/// Bytes of a field element that carry payload data.
pub const USABLE_BYTES_PER_FIELD_ELEMENT: usize = 31;

/// Bytes of a blob that carry payload data.
pub const USABLE_BYTES_PER_BLOB: usize = 126976;

/// Length prefix written at the front of the encoded payload, in bytes.
pub const LENGTH_PREFIX_BYTES: usize = 4;

/// The message of a payload too long for its length prefix.
pub const LENGTH_MESSAGE: &'static str = "payload length does not fit in u32";

/// The part of the execution payload envelope that `payload_columns_root` commits to: the payload
/// and the execution requests.
///
/// The beacon block's root is no part of it, since the bid is built before the block that carries
/// it.
#[derive(Debug, PartialEq, Eq)]
pub struct PayloadColumnData<P, R> {
    pub payload: P,
    pub execution_requests: R,
}

/// The payload and the execution requests, each in its own SSZ encoding.
pub type EncodedPayloadData = PayloadColumnData<Vec<u8>, Vec<u8>>;

/// What an [`EncodedPayloadData`] holds.
#[verifier::ext_equal]
pub struct DataView {
    pub payload: Seq<u8>,
    pub execution_requests: Seq<u8>,
}

impl View for PayloadColumnData<Vec<u8>, Vec<u8>> {
    type V = DataView;

    open spec fn view(&self) -> DataView {
        DataView { payload: self.payload@, execution_requests: self.execution_requests@ }
    }
}

/// A 4-byte number, least significant byte first.
pub open spec fn le32(n: nat) -> Seq<u8> {
    seq![
        (n % 256) as u8,
        (n / 256 % 256) as u8,
        (n / 65536 % 256) as u8,
        (n / 16777216 % 256) as u8,
    ]
}

/// The number that the 4 bytes from `at` on stand for, least significant byte first.
pub open spec fn le32_at(bytes: Seq<u8>, at: int) -> nat {
    (bytes[at] + bytes[at + 1] * 256 + bytes[at + 2] * 65536 + bytes[at + 3] * 16777216) as nat
}

/// A 4-byte number, most significant byte first.
pub open spec fn be32(n: nat) -> Seq<u8> {
    seq![
        (n / 16777216 % 256) as u8,
        (n / 65536 % 256) as u8,
        (n / 256 % 256) as u8,
        (n % 256) as u8,
    ]
}

/// The number that the first 4 bytes stand for, most significant byte first.
pub open spec fn be32_value(bytes: Seq<u8>) -> nat {
    (bytes[0] * 16777216 + bytes[1] * 65536 + bytes[2] * 256 + bytes[3]) as nat
}

/// The SSZ encoding of a container of two fields of variable size: their offsets, then the fields.
pub open spec fn ssz_container(data: DataView) -> Seq<u8> {
    le32(8) + le32(8 + data.payload.len()) + data.payload + data.execution_requests
}

/// Whether bytes are the SSZ encoding of a container of two fields of variable size.
pub open spec fn is_ssz_container(bytes: Seq<u8>) -> bool {
    &&& bytes.len() >= 8
    &&& le32_at(bytes, 0) == 8
    &&& 8 <= le32_at(bytes, 4) <= bytes.len()
}

/// The two fields of an SSZ container.
pub open spec fn ssz_fields(bytes: Seq<u8>) -> DataView {
    let second = le32_at(bytes, 4) as int;
    DataView {
        payload: bytes.subrange(8, second),
        execution_requests: bytes.subrange(second, bytes.len() as int),
    }
}

/// The error that `ssz::Decode::from_ssz_bytes` returns for bytes that are no container of two
/// fields of variable size.
pub uninterp spec fn ssz_container_error(bytes: Seq<u8>) -> ssz::DecodeError;

/// Calls `ssz::Encode::as_ssz_bytes` on a pair of byte lists, which SSZ encodes as a container of
/// two fields of variable size. The contract claims the encoding byte for byte.
#[verifier::external_body]
fn encode_container(data: &EncodedPayloadData) -> (result: Vec<u8>)
    requires
        8 + data.payload@.len() + data.execution_requests@.len() <= u32::MAX,
    ensures
        result@ == ssz_container(data@),
{
    (data.payload.clone(), data.execution_requests.clone()).as_ssz_bytes()
}

/// Calls `ssz::Decode::from_ssz_bytes` for a pair of byte lists. The contract claims on which bytes
/// it succeeds and with which fields; which error it returns on others it names
/// [`ssz_container_error`].
#[verifier::external_body]
fn decode_container(bytes: &Vec<u8>) -> (result: Result<EncodedPayloadData, ssz::DecodeError>)
    ensures
        result is Ok <==> is_ssz_container(bytes@),
        result is Ok ==> result->Ok_0@ == ssz_fields(bytes@),
        result is Err ==> result->Err_0 == ssz_container_error(bytes@),
{
    let (payload, execution_requests) = <(Vec<u8>, Vec<u8>)>::from_ssz_bytes(bytes)?;
    Ok(PayloadColumnData { payload, execution_requests })
}

/// The bytes that are spread over the blobs: the length of the container, then the container.
pub open spec fn framed(data: DataView) -> Seq<u8> {
    be32(ssz_container(data).len()) + ssz_container(data)
}

/// How many blobs a number of bytes takes; at least one, so that an empty payload is carried too.
/// (A number of bytes near the end of `usize` counts as the last `usize`, which is too many.)
pub open spec fn blobs_needed(len: nat) -> nat {
    let padded = len + (USABLE_BYTES_PER_BLOB - 1) as nat;
    let n = if padded <= usize::MAX {
        padded / USABLE_BYTES_PER_BLOB as nat
    } else {
        usize::MAX as nat / USABLE_BYTES_PER_BLOB as nat
    };
    if n < 1 {
        1
    } else {
        n
    }
}

/// Byte `j` of blob `b` of the blobs that carry `bytes`.
pub open spec fn packed_byte(bytes: Seq<u8>, b: int, j: int) -> u8 {
    let k = b * USABLE_BYTES_PER_BLOB + (j / 32) * 31 + (j % 32 - 1);
    if j % 32 == 0 {
        0
    } else if k < bytes.len() {
        bytes[k]
    } else {
        0
    }
}

/// Blob `b` of the blobs that carry `bytes`.
pub open spec fn packed_blob(bytes: Seq<u8>, b: int) -> Seq<u8> {
    Seq::new(BYTES_PER_BLOB as nat, |j: int| packed_byte(bytes, b, j))
}

/// The blobs that carry `bytes`.
pub open spec fn packed_blobs(bytes: Seq<u8>) -> Seq<Seq<u8>> {
    Seq::new(blobs_needed(bytes.len()), |b: int| packed_blob(bytes, b))
}

/// The blobs that carry a payload, or why there are none.
pub open spec fn encoded_blobs(data: DataView) -> Result<Seq<Seq<u8>>, ErrorView> {
    let needed = blobs_needed(framed(data).len());
    if ssz_container(data).len() > u32::MAX {
        Err(ErrorView::Internal(LENGTH_MESSAGE@))
    } else if needed > MAX_BLOB_COMMITMENTS_PER_BLOCK {
        Err(
            ErrorView::PayloadTooLarge {
                blobs: needed as usize,
                max: MAX_BLOB_COMMITMENTS_PER_BLOCK,
            },
        )
    } else {
        Ok(packed_blobs(framed(data)))
    }
}

/// The usable bytes of a sequence of blobs: those of its field elements but the most significant.
pub open spec fn usable_bytes(blobs: Seq<Seq<u8>>) -> Seq<u8> {
    Seq::new(
        blobs.len() * USABLE_BYTES_PER_BLOB as nat,
        |k: int|
            usable_byte(
                blobs[k / USABLE_BYTES_PER_BLOB as int],
                k % USABLE_BYTES_PER_BLOB as int,
            ),
    )
}

/// Usable byte `k` of a blob.
pub open spec fn usable_byte(blob: Seq<u8>, k: int) -> u8 {
    blob[(k / 31) * 32 + 1 + k % 31]
}

/// The most significant byte of field element `g` of a sequence of blobs.
pub open spec fn leading_byte(blobs: Seq<Seq<u8>>, g: int) -> u8 {
    blobs[g / FIELD_ELEMENTS_PER_BLOB as int][(g % FIELD_ELEMENTS_PER_BLOB as int) * 32]
}

/// The first field element from `g` on whose most significant byte is not zero.
pub open spec fn first_non_canonical(blobs: Seq<Seq<u8>>, g: nat) -> Option<nat>
    decreases blobs.len() * FIELD_ELEMENTS_PER_BLOB as nat - g,
{
    if g >= blobs.len() * FIELD_ELEMENTS_PER_BLOB as nat {
        None
    } else if leading_byte(blobs, g as int) != 0 {
        Some(g)
    } else {
        first_non_canonical(blobs, g + 1)
    }
}

/// What the usable bytes of blobs decode to.
pub open spec fn decoded_frame(raw: Seq<u8>) -> Result<DataView, ErrorView> {
    let available = raw.len() as usize;
    if raw.len() < LENGTH_PREFIX_BYTES {
        Err(ErrorView::InvalidLengthPrefix { declared: 0, available })
    } else {
        let declared = be32_value(raw);
        match fitting(declared + LENGTH_PREFIX_BYTES as nat) {
            Err(e) => Err(ErrorView::Arith(e)),
            Ok(end) => if end > raw.len() {
                Err(ErrorView::InvalidLengthPrefix { declared: declared as usize, available })
            } else if !is_padding(raw, end as int) {
                Err(ErrorView::TrailingData)
            } else {
                decoded_container(raw.subrange(LENGTH_PREFIX_BYTES as int, end as int))
            },
        }
    }
}

/// Whether bytes are zero from `end` on.
pub open spec fn is_padding(raw: Seq<u8>, end: int) -> bool {
    forall|k: int| end <= k < raw.len() ==> #[trigger] raw[k] == 0
}

/// What the bytes of a container decode to.
pub open spec fn decoded_container(body: Seq<u8>) -> Result<DataView, ErrorView> {
    if is_ssz_container(body) {
        Ok(ssz_fields(body))
    } else {
        Err(ErrorView::Ssz(ssz_container_error(body)))
    }
}

/// What blobs decode to: the payload and the requests, still in their own encodings.
pub open spec fn decoded_blobs(blobs: Seq<Seq<u8>>) -> Result<DataView, ErrorView> {
    match first_non_canonical(blobs, 0) {
        Some(g) => match fitting(g * BYTES_PER_FIELD_ELEMENT as nat) {
            Ok(offset) => Err(ErrorView::NonCanonicalFieldElement { offset }),
            Err(e) => Err(ErrorView::Arith(e)),
        },
        None => decoded_frame(usable_bytes(blobs)),
    }
}

/// The committed data of an envelope with the given contents.
pub fn payload_column_data(payload: &Vec<u8>, execution_requests: &Vec<u8>) -> (result:
    EncodedPayloadData)
    ensures
        result@ == (DataView { payload: payload@, execution_requests: execution_requests@ }),
        result.payload@ == payload@,
        result.execution_requests@ == execution_requests@,
{
    PayloadColumnData {
        payload: copy_bytes(payload),
        execution_requests: copy_bytes(execution_requests),
    }
}

/// Usable payload bytes per blob.
pub fn usable_bytes_per_blob<E: EthSpec>() -> (result: Result<usize, ArithError>)
    ensures
        result == Ok::<usize, ArithError>(USABLE_BYTES_PER_BLOB),
{
    proof {
        E::shared_geometry();
    }
    safe_mul(E::field_elements_per_blob(), USABLE_BYTES_PER_FIELD_ELEMENT)
}

/// What an encoding of blobs returned.
pub open spec fn blobs_result(result: Result<Vec<Blob>, PayloadColumnError>) -> Result<
    Seq<Seq<u8>>,
    ErrorView,
> {
    match result {
        Ok(blobs) => Ok(blobs_of(blobs@)),
        Err(e) => Err(e@),
    }
}

/// What unpacking returned.
pub open spec fn data_result(result: Result<EncodedPayloadData, PayloadColumnError>) -> Result<
    DataView,
    ErrorView,
> {
    match result {
        Ok(data) => Ok(data@),
        Err(e) => Err(e@),
    }
}

/// Packs the SSZ encoding of `data` into one or more blobs.
pub fn payload_data_to_blobs<E: EthSpec>(data: &EncodedPayloadData) -> (result: Result<
    Vec<Blob>,
    PayloadColumnError,
>)
    ensures
        blobs_result(result) == encoded_blobs(data@),
        // Up to the last byte that fits in the blobs of one block, every payload is packed.
        result is Ok <==> {
            &&& 8 + data.payload@.len() + data.execution_requests@.len() <= u32::MAX
            &&& 12 + data.payload@.len() + data.execution_requests@.len() <= 4096 * 126976
        },
        result is Ok ==> {
            let len = 12 + data.payload@.len() + data.execution_requests@.len();
            let n = result->Ok_0@.len();
            &&& (n - 1) * 126976 < len <= n * 126976
            &&& forall|b: int| 0 <= b < n ==> (#[trigger] result->Ok_0@[b])@.len() == 131072
        },
        result is Ok ==> {
            &&& result->Ok_0@.len() == encoded_blobs(data@)->Ok_0.len()
            &&& forall|b: int|
                0 <= b < result->Ok_0@.len() ==> (#[trigger] result->Ok_0@[b])@ == encoded_blobs(
                    data@,
                )->Ok_0[b]
        },
        result is Err ==> encoded_blobs(data@) == Err::<Seq<Seq<u8>>, ErrorView>(result->Err_0@),
{
    proof {
        law_payloads_that_fit_are_packed(data@);
    }
    let payload_len: u64 = data.payload.len() as u64;
    let requests_len: u64 = data.execution_requests.len() as u64;
    let most: u64 = u32::MAX as u64 - 8;
    if payload_len > most || requests_len > most - payload_len {
        return Err(PayloadColumnError::Internal(LENGTH_MESSAGE.to_string()));
    }
    let ssz_bytes = encode_container(data);
    let payload_bytes = frame(&ssz_bytes);

    let usable_per_blob: usize = match usable_bytes_per_blob::<E>() {
        Ok(usable) => usable,
        Err(e) => return Err(PayloadColumnError::Arith(e)),
    };
    let len: usize = payload_bytes.len();
    let padded: usize = if len <= usize::MAX - (usable_per_blob - 1) {
        len + (usable_per_blob - 1)
    } else {
        usize::MAX
    };
    let quotient: usize = padded / usable_per_blob;
    let num_blobs: usize = if quotient < 1 {
        1
    } else {
        quotient
    };

    proof {
        E::shared_geometry();
    }
    let max_blobs: usize = E::max_blob_commitments_per_block();
    if num_blobs > max_blobs {
        return Err(PayloadColumnError::PayloadTooLarge { blobs: num_blobs, max: max_blobs });
    }
    let mut blobs: Vec<Blob> = Vec::with_capacity(num_blobs);
    let mut b: usize = 0;
    while b < num_blobs
        invariant
            b <= num_blobs <= MAX_BLOB_COMMITMENTS_PER_BLOCK,
            blobs@.len() == b,
            forall|i: int|
                0 <= i < b ==> (#[trigger] blobs@[i])@ == packed_blob(payload_bytes@, i),
        decreases num_blobs - b,
    {
        match pack_blob(&payload_bytes, b) {
            Ok(blob) => blobs.push(blob),
            Err(_) => return Err(PayloadColumnError::Internal("blob size mismatch".to_string())),
        }
        b += 1;
    }
    assert(blobs_of(blobs@) =~= packed_blobs(payload_bytes@));
    Ok(blobs)
}

/// Writes the length of `body` in front of it.
fn frame(body: &Vec<u8>) -> (result: Vec<u8>)
    requires
        body@.len() <= u32::MAX,
    ensures
        result@ == be32(body@.len()) + body@,
{
    let length: u32 = body.len() as u32;
    let mut bytes: Vec<u8> = Vec::new();
    bytes.push((length / 16777216 % 256) as u8);
    bytes.push((length / 65536 % 256) as u8);
    bytes.push((length / 256 % 256) as u8);
    bytes.push((length % 256) as u8);
    assert(bytes@ =~= be32(body@.len()));
    bytes.extend_from_slice(body.as_slice());
    assert(bytes@ =~= be32(body@.len()) + body@);
    bytes
}

/// Packs blob `b` of the blobs that carry `bytes`.
fn pack_blob(bytes: &Vec<u8>, b: usize) -> (result: Result<Blob, ContainerError>)
    requires
        b < MAX_BLOB_COMMITMENTS_PER_BLOCK,
    ensures
        result is Ok,
        result->Ok_0@ == packed_blob(bytes@, b as int),
{
    let mut blob: Vec<u8> = Vec::with_capacity(BYTES_PER_BLOB);
    let start: usize = b * USABLE_BYTES_PER_BLOB;
    let mut fe: usize = 0;
    while fe < FIELD_ELEMENTS_PER_BLOB
        invariant
            fe <= FIELD_ELEMENTS_PER_BLOB,
            b < MAX_BLOB_COMMITMENTS_PER_BLOCK,
            start == b * USABLE_BYTES_PER_BLOB,
            blob@.len() == fe * 32,
            forall|j: int|
                0 <= j < blob@.len() ==> #[trigger] blob@[j] == packed_byte(bytes@, b as int, j),
        decreases FIELD_ELEMENTS_PER_BLOB - fe,
    {
        blob.push(0);
        let chunk: usize = start + fe * USABLE_BYTES_PER_FIELD_ELEMENT;
        let mut t: usize = 0;
        while t < USABLE_BYTES_PER_FIELD_ELEMENT
            invariant
                t <= USABLE_BYTES_PER_FIELD_ELEMENT,
                fe < FIELD_ELEMENTS_PER_BLOB,
                b < MAX_BLOB_COMMITMENTS_PER_BLOCK,
                chunk == b * USABLE_BYTES_PER_BLOB + fe * 31,
                blob@.len() == fe * 32 + 1 + t,
                forall|j: int|
                    0 <= j < blob@.len() ==> #[trigger] blob@[j] == packed_byte(
                        bytes@,
                        b as int,
                        j,
                    ),
            decreases USABLE_BYTES_PER_FIELD_ELEMENT - t,
        {
            let k: usize = chunk + t;
            if k < bytes.len() {
                blob.push(bytes[k]);
            } else {
                blob.push(0);
            }
            t += 1;
        }
        fe += 1;
    }
    assert(blob@ =~= packed_blob(bytes@, b as int));
    Blob::new(blob)
}

/// Whether `decode` returned `decoded` for a field's bytes.
pub open spec fn field_decoded<D, F: Fn(Vec<u8>) -> Result<D, ssz::DecodeError>>(
    decode: F,
    bytes: Seq<u8>,
    decoded: Result<D, ssz::DecodeError>,
) -> bool {
    exists|field: Vec<u8>|
        field@ == bytes && #[trigger] call_ensures(decode, (field,), decoded)
}

/// The data of two fields, if both decode; else why the first that does not decode is none.
pub open spec fn data_of<P, R>(
    payload: Result<P, ssz::DecodeError>,
    execution_requests: Result<R, ssz::DecodeError>,
) -> Result<PayloadColumnData<P, R>, PayloadColumnError> {
    match (payload, execution_requests) {
        (Err(e), _) => Err(PayloadColumnError::Ssz(e)),
        (Ok(_), Err(e)) => Err(PayloadColumnError::Ssz(e)),
        (Ok(payload), Ok(execution_requests)) => Ok(
            PayloadColumnData { payload, execution_requests },
        ),
    }
}

/// Whether `result` is what comes of decoding the fields of what was unpacked.
pub open spec fn data_decoded<
    P,
    R,
    F: Fn(Vec<u8>) -> Result<P, ssz::DecodeError>,
    G: Fn(Vec<u8>) -> Result<R, ssz::DecodeError>,
>(
    unpacked: Result<DataView, ErrorView>,
    decode_payload: F,
    decode_requests: G,
    result: Result<PayloadColumnData<P, R>, PayloadColumnError>,
) -> bool {
    match unpacked {
        Err(e) => result matches Err(error) && error@ == e,
        Ok(data) => exists|
            payload: Result<P, ssz::DecodeError>,
            execution_requests: Result<R, ssz::DecodeError>,
        |
            {
                &&& field_decoded(decode_payload, data.payload, payload)
                &&& field_decoded(decode_requests, data.execution_requests, execution_requests)
                &&& result == #[trigger] data_of(payload, execution_requests)
            },
    }
}

/// Puts two decoded fields together; refuses them with the error of the first that did not decode.
pub fn join_fields<P, R>(
    payload: Result<P, ssz::DecodeError>,
    execution_requests: Result<R, ssz::DecodeError>,
) -> (result: Result<PayloadColumnData<P, R>, PayloadColumnError>)
    ensures
        result == data_of(payload, execution_requests),
        result is Ok <==> payload is Ok && execution_requests is Ok,
        result is Ok ==> result->Ok_0.payload == payload->Ok_0 && result->Ok_0.execution_requests
            == execution_requests->Ok_0,
        payload is Err ==> result->Err_0 == PayloadColumnError::Ssz(payload->Err_0),
        payload is Ok && execution_requests is Err ==> result->Err_0 == PayloadColumnError::Ssz(
            execution_requests->Err_0,
        ),
{
    match payload {
        Ok(payload) => match execution_requests {
            Ok(execution_requests) => Ok(PayloadColumnData { payload, execution_requests }),
            Err(e) => Err(PayloadColumnError::Ssz(e)),
        },
        Err(e) => Err(PayloadColumnError::Ssz(e)),
    }
}

/// Decodes the fields of what was unpacked.
pub(crate) fn decode_fields<
    P,
    R,
    F: Fn(Vec<u8>) -> Result<P, ssz::DecodeError>,
    G: Fn(Vec<u8>) -> Result<R, ssz::DecodeError>,
>(
    unpacked: Result<EncodedPayloadData, PayloadColumnError>,
    decode_payload: F,
    decode_requests: G,
) -> (result: Result<PayloadColumnData<P, R>, PayloadColumnError>)
    requires
        forall|bytes: Vec<u8>| call_requires(decode_payload, (bytes,)),
        forall|bytes: Vec<u8>| call_requires(decode_requests, (bytes,)),
    ensures
        data_decoded(data_result(unpacked), decode_payload, decode_requests, result),
{
    let data = match unpacked {
        Ok(data) => data,
        Err(e) => return Err(e),
    };
    let payload = decode_payload(data.payload);
    let execution_requests = decode_requests(data.execution_requests);
    proof {
        assert(field_decoded(decode_payload, data@.payload, payload));
        assert(field_decoded(decode_requests, data@.execution_requests, execution_requests));
    }
    join_fields(payload, execution_requests)
}

/// Unpacks the payload from blobs, the inverse of [`payload_data_to_blobs`].
///
/// The payload and the requests are decoded with `decode_payload` and `decode_requests` from their
/// SSZ encodings. Where either does not decode, its error is returned, that of the payload first.
pub fn blobs_to_payload_data<
    E: EthSpec,
    P,
    R,
    F: Fn(Vec<u8>) -> Result<P, ssz::DecodeError>,
    G: Fn(Vec<u8>) -> Result<R, ssz::DecodeError>,
>(blobs: &Vec<Blob>, decode_payload: F, decode_requests: G) -> (result: Result<
    PayloadColumnData<P, R>,
    PayloadColumnError,
>)
    requires
        forall|bytes: Vec<u8>| call_requires(decode_payload, (bytes,)),
        forall|bytes: Vec<u8>| call_requires(decode_requests, (bytes,)),
    ensures
        data_decoded(decoded_blobs(blobs_of(blobs@)), decode_payload, decode_requests, result),
{
    decode_fields(unpack_blobs::<E>(blobs), decode_payload, decode_requests)
}

/// Unpacks the encodings of the payload and the requests from blobs.
pub fn unpack_blobs<E: EthSpec>(blobs: &Vec<Blob>) -> (result: Result<
    EncodedPayloadData,
    PayloadColumnError,
>)
    ensures
        data_result(result) == decoded_blobs(blobs_of(blobs@)),
        result is Ok <==> decoded_blobs(blobs_of(blobs@)) is Ok,
        result is Ok ==> {
            &&& result->Ok_0.payload@ == decoded_blobs(blobs_of(blobs@))->Ok_0.payload
            &&& result->Ok_0.execution_requests@ == decoded_blobs(
                blobs_of(blobs@),
            )->Ok_0.execution_requests
        },
        result is Err ==> decoded_blobs(blobs_of(blobs@)) == Err::<DataView, ErrorView>(
            result->Err_0@,
        ),
{
    let ghost all = blobs_of(blobs@);
    proof {
        E::shared_geometry();
    }
    let mut raw: Vec<u8> = Vec::new();
    let mut b: usize = 0;
    while b < blobs.len()
        invariant
            b <= blobs@.len(),
            all == blobs_of(blobs@),
            raw@.len() == b * USABLE_BYTES_PER_BLOB,
            raw@ == usable_bytes(all).take(raw@.len() as int),
            first_non_canonical(all, 0) == first_non_canonical(
                all,
                b as nat * FIELD_ELEMENTS_PER_BLOB as nat,
            ),
            E::spec_bytes_per_blob() == BYTES_PER_BLOB,
        decreases blobs@.len() - b,
    {
        let bytes = blobs[b].as_bytes();
        assert(all[b as int] == bytes@);
        let mut fe: usize = 0;
        while fe < FIELD_ELEMENTS_PER_BLOB
            invariant
                fe <= FIELD_ELEMENTS_PER_BLOB,
                b < blobs@.len(),
                all == blobs_of(blobs@),
                all[b as int] == bytes@,
                bytes@.len() == BYTES_PER_BLOB,
                raw@.len() == b * USABLE_BYTES_PER_BLOB + fe * 31,
                raw@ == usable_bytes(all).take(raw@.len() as int),
                first_non_canonical(all, 0) == first_non_canonical(
                    all,
                    (b * FIELD_ELEMENTS_PER_BLOB + fe) as nat,
                ),
                E::spec_bytes_per_blob() == BYTES_PER_BLOB,
            decreases FIELD_ELEMENTS_PER_BLOB - fe,
        {
            let fe_start: usize = fe * BYTES_PER_FIELD_ELEMENT;
            let ghost g = (b * FIELD_ELEMENTS_PER_BLOB + fe) as nat;
            assert(g / FIELD_ELEMENTS_PER_BLOB as nat == b && g % FIELD_ELEMENTS_PER_BLOB as nat
                == fe);
            assert(g < all.len() * FIELD_ELEMENTS_PER_BLOB as nat);
            if bytes[fe_start] != 0 {
                assert(first_non_canonical(all, g) == Some(g));
                return match safe_mul(b, E::bytes_per_blob()) {
                    Ok(blob_start) => match safe_add(blob_start, fe_start) {
                        Ok(offset) => Err(PayloadColumnError::NonCanonicalFieldElement { offset }),
                        Err(e) => Err(PayloadColumnError::Arith(e)),
                    },
                    Err(e) => Err(PayloadColumnError::Arith(e)),
                };
            }
            assert(first_non_canonical(all, g) == first_non_canonical(all, g + 1));
            let mut t: usize = 0;
            while t < USABLE_BYTES_PER_FIELD_ELEMENT
                invariant
                    t <= USABLE_BYTES_PER_FIELD_ELEMENT,
                    fe < FIELD_ELEMENTS_PER_BLOB,
                    fe_start == fe * 32,
                    b < blobs@.len(),
                    all == blobs_of(blobs@),
                    all[b as int] == bytes@,
                    bytes@.len() == BYTES_PER_BLOB,
                    raw@.len() == b * USABLE_BYTES_PER_BLOB + fe * 31 + t,
                    raw@ == usable_bytes(all).take(raw@.len() as int),
                decreases USABLE_BYTES_PER_FIELD_ELEMENT - t,
            {
                let ghost k = raw@.len() as int;
                let ghost before = raw@;
                assert(k / USABLE_BYTES_PER_BLOB as int == b && k % USABLE_BYTES_PER_BLOB as int
                    == fe * 31 + t);
                assert((fe * 31 + t) / 31 == fe && (fe * 31 + t) % 31 == t);
                assert(k < usable_bytes(all).len());
                raw.push(bytes[fe_start + 1 + t]);
                assert(raw@ =~= before.push(usable_bytes(all)[k]));
                assert(usable_bytes(all).take(k).push(usable_bytes(all)[k]) =~= usable_bytes(
                    all,
                ).take(k + 1));
                t += 1;
            }
            fe += 1;
        }
        b += 1;
    }
    assert(usable_bytes(all).take(raw@.len() as int) =~= usable_bytes(all));
    unframe(&raw)
}

/// Reads the payload from the usable bytes of blobs: the declared length, the container, and zero
/// padding.
fn unframe(raw: &Vec<u8>) -> (result: Result<EncodedPayloadData, PayloadColumnError>)
    ensures
        data_result(result) == decoded_frame(raw@),
{
    if raw.len() < LENGTH_PREFIX_BYTES {
        return Err(
            PayloadColumnError::InvalidLengthPrefix { declared: 0, available: raw.len() },
        );
    }
    let prefix: u32 = raw[0] as u32 * 16777216 + raw[1] as u32 * 65536 + raw[2] as u32 * 256
        + raw[3] as u32;
    let declared: usize = prefix as usize;
    let body_end: usize = match safe_add(declared, LENGTH_PREFIX_BYTES) {
        Ok(end) => end,
        Err(e) => return Err(PayloadColumnError::Arith(e)),
    };
    if body_end > raw.len() {
        return Err(PayloadColumnError::InvalidLengthPrefix { declared, available: raw.len() });
    }
    if !zero_from(raw, body_end) {
        return Err(PayloadColumnError::TrailingData);
    }
    let body = subrange_of(raw, LENGTH_PREFIX_BYTES, body_end);
    match decode_container(&body) {
        Ok(data) => Ok(data),
        Err(e) => Err(PayloadColumnError::from(e)),
    }
}

/// Whether bytes are zero from `end` on.
fn zero_from(raw: &Vec<u8>, end: usize) -> (result: bool)
    requires
        end <= raw@.len(),
    ensures
        result == is_padding(raw@, end as int),
{
    let mut k: usize = end;
    while k < raw.len()
        invariant
            end <= k <= raw@.len(),
            forall|j: int| end <= j < k ==> #[trigger] raw@[j] == 0,
        decreases raw@.len() - k,
    {
        if raw[k] != 0 {
            return false;
        }
        k += 1;
    }
    true
}

/// Copies a range of bytes.
fn subrange_of(bytes: &Vec<u8>, start: usize, end: usize) -> (result: Vec<u8>)
    requires
        start <= end <= bytes@.len(),
    ensures
        result@ == bytes@.subrange(start as int, end as int),
{
    let mut copy: Vec<u8> = Vec::with_capacity(end - start);
    let mut k: usize = start;
    while k < end
        invariant
            start <= k <= end <= bytes@.len(),
            copy@ == bytes@.subrange(start as int, k as int),
        decreases end - k,
    {
        copy.push(bytes[k]);
        assert(copy@ =~= bytes@.subrange(start as int, k + 1));
        k += 1;
    }
    copy
}

/// The last digit of a number to the base of 256, and the number without it.
proof fn lemma_last_digit(rest: nat, digit: nat)
    requires
        digit < 256,
    ensures
        (rest * 256 + digit) / 256 == rest,
        (rest * 256 + digit) % 256 == digit,
{
}

/// Dropping the last digits of a number to the base of 256, one by one.
proof fn lemma_drop_digits(n: nat)
    requires
        n <= u32::MAX,
    ensures
        n / 65536 == n / 256 / 256,
        n / 16777216 == n / 256 / 256 / 256,
        n / 256 / 256 / 256 < 256,
{
    lemma_div_denominator(n as int, 256, 256);
    lemma_div_denominator(n as int, 65536, 256);
    assert(n / 16777216 < 256);
}

/// A number of four bytes is the sum of its digits to the base of 256.
proof fn lemma_sum_of_digits(n: nat)
    requires
        n <= u32::MAX,
    ensures
        n == (n / 16777216 % 256) * 16777216 + (n / 65536 % 256) * 65536 + (n / 256 % 256) * 256 + (n
            % 256),
{
    lemma_drop_digits(n);
    let (q1, q2, q3) = (n / 256, n / 256 / 256, n / 256 / 256 / 256);
    assert(n == q1 * 256 + n % 256);
    assert(q1 == q2 * 256 + q1 % 256);
    assert(q2 == q3 * 256 + q2 % 256);
    assert(q3 % 256 == q3);
}

/// The digits to the base of 256 of a sum of four digits are these.
proof fn lemma_digits_of_sum(a: nat, b: nat, c: nat, d: nat)
    requires
        a < 256,
        b < 256,
        c < 256,
        d < 256,
    ensures
        ({
            let n = a * 16777216 + b * 65536 + c * 256 + d;
            &&& n <= u32::MAX
            &&& n / 16777216 % 256 == a
            &&& n / 65536 % 256 == b
            &&& n / 256 % 256 == c
            &&& n % 256 == d
        }),
{
    let n = a * 16777216 + b * 65536 + c * 256 + d;
    lemma_drop_digits(n);
    lemma_last_digit(a * 65536 + b * 256 + c, d);
    lemma_last_digit(a * 256 + b, c);
    lemma_last_digit(a, b);
    lemma_last_digit(0, a);
}

/// A 4-byte number reads back as itself, in either byte order.
proof fn lemma_numbers_read_back(n: nat, rest: Seq<u8>)
    requires
        n <= u32::MAX,
    ensures
        be32_value(be32(n) + rest) == n,
        le32_at(le32(n) + rest, 0) == n,
{
    lemma_sum_of_digits(n);
    let bytes = be32(n) + rest;
    assert(bytes[0] == be32(n)[0] && bytes[1] == be32(n)[1] && bytes[2] == be32(n)[2] && bytes[3]
        == be32(n)[3]);
    let swapped = le32(n) + rest;
    assert(swapped[0] == le32(n)[0] && swapped[1] == le32(n)[1] && swapped[2] == le32(n)[2]
        && swapped[3] == le32(n)[3]);
}

/// A container decodes to the fields that it was encoded from.
pub proof fn law_container_round_trips(data: DataView)
    requires
        ssz_container(data).len() <= u32::MAX,
    ensures
        is_ssz_container(ssz_container(data)),
        ssz_fields(ssz_container(data)) == data,
{
    let bytes = ssz_container(data);
    let second = 8 + data.payload.len();
    lemma_numbers_read_back(8, bytes.skip(4));
    assert(le32(8) + bytes.skip(4) =~= bytes);
    lemma_numbers_read_back(second, bytes.skip(8));
    let tail = le32(second) + bytes.skip(8);
    assert(tail =~= bytes.skip(4));
    assert(tail[0] == bytes[4] && tail[1] == bytes[5] && tail[2] == bytes[6] && tail[3]
        == bytes[7]);
    assert(le32_at(bytes, 4) == second);
    assert(ssz_fields(bytes).payload =~= data.payload);
    assert(ssz_fields(bytes).execution_requests =~= data.execution_requests);
}

/// Every field element of packed blobs has a zero as its most significant byte, so that it is a
/// canonical scalar.
pub proof fn law_packed_blobs_are_canonical(bytes: Seq<u8>, g: nat)
    ensures
        first_non_canonical(packed_blobs(bytes), g) is None,
    decreases packed_blobs(bytes).len() * FIELD_ELEMENTS_PER_BLOB as nat - g,
{
    let blobs = packed_blobs(bytes);
    if g < blobs.len() * FIELD_ELEMENTS_PER_BLOB as nat {
        let b = g as int / FIELD_ELEMENTS_PER_BLOB as int;
        let j = (g as int % FIELD_ELEMENTS_PER_BLOB as int) * 32;
        assert(0 <= b < blobs.len());
        assert(0 <= j < BYTES_PER_BLOB && j % 32 == 0);
        assert(blobs[b][j] == packed_byte(bytes, b, j));
        law_packed_blobs_are_canonical(bytes, g + 1);
    }
}

/// The number that `n` bytes can count to.
spec fn power_of_256(n: nat) -> nat
    decreases n,
{
    if n == 0 {
        1
    } else {
        power_of_256((n - 1) as nat) * 256
    }
}

/// A byte string with a leading zero stands for a number that one byte less can hold.
proof fn lemma_big_endian_bound(bytes: Seq<u8>)
    ensures
        big_endian(bytes) < power_of_256(bytes.len()),
        bytes.len() > 0 && bytes[0] == 0 ==> big_endian(bytes) < power_of_256(
            (bytes.len() - 1) as nat,
        ),
    decreases bytes.len(),
{
    if bytes.len() > 0 {
        lemma_big_endian_bound(bytes.drop_last());
        if bytes.len() == 1 {
            assert(big_endian(bytes.drop_last()) == 0);
        }
    }
}

/// Every field element of a packed blob is a number below the order of the field.
pub proof fn law_packed_blob_is_canonical(bytes: Seq<u8>, b: int)
    ensures
        canonical(packed_blob(bytes, b)),
{
    let blob = packed_blob(bytes, b);
    assert forall|i: int|
        0 <= i && (i + 1) * BYTES_PER_FIELD_ELEMENT <= blob.len() implies big_endian(
        #[trigger] field_element(blob, i),
    ) < field_modulus() by {
        let element = field_element(blob, i);
        assert(element[0] == packed_byte(bytes, b, i * 32));
        assert(element[0] == 0);
        lemma_big_endian_bound(element);
        assert(power_of_256(31) < field_modulus()) by {
            reveal_with_fuel(power_of_256, 32);
        }
    }
}

/// The usable bytes of packed blobs are the packed bytes, and zeroes behind them.
pub proof fn law_packed_bytes_read_back(bytes: Seq<u8>)
    requires
        blobs_needed(bytes.len()) <= MAX_BLOB_COMMITMENTS_PER_BLOCK,
    ensures
        usable_bytes(packed_blobs(bytes)).len() >= bytes.len(),
        forall|k: int|
            0 <= k < usable_bytes(packed_blobs(bytes)).len() ==> #[trigger] usable_bytes(
                packed_blobs(bytes),
            )[k] == (if k < bytes.len() {
                bytes[k]
            } else {
                0
            }),
{
    let blobs = packed_blobs(bytes);
    let raw = usable_bytes(blobs);
    assert forall|k: int| 0 <= k < raw.len() implies #[trigger] raw[k] == (if k < bytes.len() {
        bytes[k]
    } else {
        0
    }) by {
        let b = k / USABLE_BYTES_PER_BLOB as int;
        let r = k % USABLE_BYTES_PER_BLOB as int;
        let j = (r / 31) * 32 + 1 + r % 31;
        assert(0 <= b < blobs.len());
        assert(0 <= j < BYTES_PER_BLOB);
        assert(j / 32 == r / 31 && j % 32 == 1 + r % 31);
        assert(blobs[b][j] == packed_byte(bytes, b, j));
        assert(b * USABLE_BYTES_PER_BLOB + (j / 32) * 31 + (j % 32 - 1) == k);
    }
}

/// A frame with zeroes behind it decodes to the payload that it holds.
proof fn lemma_frame_reads_back(data: DataView, raw: Seq<u8>)
    requires
        ssz_container(data).len() <= u32::MAX,
        framed(data).len() <= raw.len() <= usize::MAX,
        framed(data) == raw.take(framed(data).len() as int),
        is_padding(raw, framed(data).len() as int),
    ensures
        decoded_frame(raw) == Ok::<DataView, ErrorView>(data),
{
    let ssz_bytes = ssz_container(data);
    let bytes = framed(data);
    law_container_round_trips(data);
    lemma_numbers_read_back(ssz_bytes.len(), ssz_bytes);
    assert(raw[0] == bytes[0] && raw[1] == bytes[1] && raw[2] == bytes[2] && raw[3] == bytes[3]);
    assert(be32_value(raw) == be32_value(bytes));
    let end = (4 + ssz_bytes.len()) as int;
    assert(raw.subrange(4, end) =~= bytes.subrange(4, end));
    assert(bytes.subrange(4, end) =~= ssz_bytes);
}

/// Decoding the blobs that a payload was encoded into gives the payload back.
pub proof fn law_blobs_round_trip(data: DataView)
    requires
        encoded_blobs(data) is Ok,
    ensures
        decoded_blobs(encoded_blobs(data)->Ok_0) == Ok::<DataView, ErrorView>(data),
{
    let bytes = framed(data);
    let raw = usable_bytes(packed_blobs(bytes));
    law_packed_blobs_are_canonical(bytes, 0);
    law_packed_bytes_read_back(bytes);
    assert(raw.take(bytes.len() as int) =~= bytes);
    lemma_frame_reads_back(data, raw);
}

/// Four bytes are written back from the number that they stand for, in either byte order.
proof fn lemma_numbers_write_back(bytes: Seq<u8>)
    requires
        bytes.len() == 4,
    ensures
        be32(be32_value(bytes)) == bytes,
        le32(le32_at(bytes, 0)) == bytes,
{
    let (a, b, c, d) = (bytes[0] as nat, bytes[1] as nat, bytes[2] as nat, bytes[3] as nat);
    lemma_digits_of_sum(a, b, c, d);
    assert(be32(be32_value(bytes)) =~= bytes);
    lemma_digits_of_sum(d, c, b, a);
    assert(le32(le32_at(bytes, 0)) =~= bytes);
}

/// A container is the encoding of the fields that it decodes to.
pub proof fn law_containers_are_unambiguous(body: Seq<u8>)
    requires
        is_ssz_container(body),
    ensures
        ssz_container(ssz_fields(body)) == body,
{
    let first = body.subrange(0, 4);
    let second = body.subrange(4, 8);
    lemma_numbers_write_back(first);
    lemma_numbers_write_back(second);
    assert(le32_at(first, 0) == le32_at(body, 0));
    assert(le32_at(second, 0) == le32_at(body, 4));
    assert(ssz_container(ssz_fields(body)) =~= body);
}

/// Without a first field element that is not canonical, there is none.
proof fn lemma_all_canonical(blobs: Seq<Seq<u8>>, from: nat, g: nat)
    requires
        first_non_canonical(blobs, from) is None,
        from <= g < blobs.len() * FIELD_ELEMENTS_PER_BLOB as nat,
    ensures
        leading_byte(blobs, g as int) == 0,
    decreases g - from,
{
    if from < g {
        lemma_all_canonical(blobs, from + 1, g);
    }
}

/// Bytes that decode to a payload are its frame, with zeroes behind it.
proof fn lemma_frame_is_unambiguous(raw: Seq<u8>, data: DataView)
    requires
        raw.len() <= usize::MAX,
        decoded_frame(raw) == Ok::<DataView, ErrorView>(data),
    ensures
        framed(data).len() <= raw.len(),
        framed(data) == raw.take(framed(data).len() as int),
        is_padding(raw, framed(data).len() as int),
{
    let declared = be32_value(raw);
    let end = (declared + 4) as int;
    let body = raw.subrange(4, end);
    law_containers_are_unambiguous(body);
    lemma_numbers_write_back(raw.subrange(0, 4));
    assert(be32_value(raw.subrange(0, 4)) == declared);
    assert(framed(data) =~= raw.take(end));
}

/// Blobs that decode to a payload are the blobs that carry it, up to blobs of zeroes at the end:
/// nothing else is in them, and no other blobs of the same number decode to the same payload.
pub proof fn law_blobs_are_unambiguous(blobs: Seq<Seq<u8>>, data: DataView)
    requires
        forall|b: int| 0 <= b < blobs.len() ==> (#[trigger] blobs[b]).len() == BYTES_PER_BLOB,
        blobs.len() * USABLE_BYTES_PER_BLOB <= usize::MAX,
        decoded_blobs(blobs) == Ok::<DataView, ErrorView>(data),
    ensures
        blobs == Seq::new(blobs.len(), |b: int| packed_blob(framed(data), b)),
{
    let raw = usable_bytes(blobs);
    let bytes = framed(data);
    lemma_frame_is_unambiguous(raw, data);
    assert forall|b: int| 0 <= b < blobs.len() implies #[trigger] blobs[b] == packed_blob(
        bytes,
        b,
    ) by {
        assert forall|j: int| 0 <= j < BYTES_PER_BLOB implies #[trigger] blobs[b][j]
            == packed_byte(bytes, b, j) by {
            if j % 32 == 0 {
                let g = (b * FIELD_ELEMENTS_PER_BLOB + j / 32) as nat;
                assert(g as int / FIELD_ELEMENTS_PER_BLOB as int == b);
                assert(g as int % FIELD_ELEMENTS_PER_BLOB as int == j / 32);
                lemma_all_canonical(blobs, 0, g);
            } else {
                let r = (j / 32) * 31 + (j % 32 - 1);
                let k = b * USABLE_BYTES_PER_BLOB + r;
                assert(0 <= r < USABLE_BYTES_PER_BLOB);
                assert(k / USABLE_BYTES_PER_BLOB as int == b);
                assert(k % USABLE_BYTES_PER_BLOB as int == r);
                assert(r / 31 == j / 32 && r % 31 == j % 32 - 1);
                assert(k < raw.len());
                assert(raw[k] == blobs[b][j]);
            }
        }
        assert(blobs[b] =~= packed_blob(bytes, b));
    }
    assert(blobs =~= Seq::new(blobs.len(), |b: int| packed_blob(bytes, b)));
}

/// A blob of zeroes.
pub open spec fn zero_blob() -> Seq<u8> {
    Seq::new(BYTES_PER_BLOB as nat, |j: int| 0u8)
}

/// Blobs of zeroes behind canonical blobs leave them canonical.
proof fn lemma_zeroes_are_canonical(blobs: Seq<Seq<u8>>, padded: Seq<Seq<u8>>, g: nat)
    requires
        blobs.len() <= padded.len(),
        forall|b: int| 0 <= b < blobs.len() ==> #[trigger] padded[b] == blobs[b],
        forall|b: int| blobs.len() <= b < padded.len() ==> #[trigger] padded[b] == zero_blob(),
        first_non_canonical(blobs, g) is None,
    ensures
        first_non_canonical(padded, g) is None,
    decreases padded.len() * FIELD_ELEMENTS_PER_BLOB as nat - g,
{
    if g < padded.len() * FIELD_ELEMENTS_PER_BLOB as nat {
        let b = g as int / FIELD_ELEMENTS_PER_BLOB as int;
        let fe = g as int % FIELD_ELEMENTS_PER_BLOB as int;
        assert(0 <= b < padded.len());
        assert(0 <= fe * 32 < BYTES_PER_BLOB);
        if b < blobs.len() {
            assert(g < blobs.len() * FIELD_ELEMENTS_PER_BLOB as nat);
            assert(leading_byte(padded, g as int) == leading_byte(blobs, g as int));
        } else {
            assert(padded[b] == zero_blob());
        }
        lemma_zeroes_are_canonical(blobs, padded, g + 1);
    }
}

/// Blobs of zeroes behind blobs that decode change nothing of what they decode to.
pub proof fn law_zero_blobs_change_nothing(
    blobs: Seq<Seq<u8>>,
    zeroes: Seq<Seq<u8>>,
    data: DataView,
)
    requires
        decoded_blobs(blobs) == Ok::<DataView, ErrorView>(data),
        forall|b: int| 0 <= b < zeroes.len() ==> #[trigger] zeroes[b] == zero_blob(),
    ensures
        decoded_blobs(blobs + zeroes) == Ok::<DataView, ErrorView>(data),
{
    let padded = blobs + zeroes;
    let raw = usable_bytes(blobs);
    let longer = usable_bytes(padded);
    lemma_zeroes_are_canonical(blobs, padded, 0);
    assert(raw.len() <= longer.len());
    assert forall|k: int| 0 <= k < longer.len() implies #[trigger] longer[k] == (if k < raw.len() {
        raw[k]
    } else {
        0
    }) by {
        let b = k / USABLE_BYTES_PER_BLOB as int;
        let r = k % USABLE_BYTES_PER_BLOB as int;
        assert(0 <= b < padded.len());
        if k < raw.len() {
            assert(b < blobs.len());
            assert(padded[b] == blobs[b]);
        } else {
            assert(blobs.len() <= b);
            assert(padded[b] == zeroes[b - blobs.len()]);
            assert(0 <= (r / 31) * 32 + 1 + r % 31 < BYTES_PER_BLOB);
        }
    }
    let end = (be32_value(raw) + 4) as int;
    assert(be32_value(longer) == be32_value(raw));
    assert(longer.subrange(4, end) =~= raw.subrange(4, end));
    assert(is_padding(longer, end)) by {
        assert forall|k: int| end <= k < longer.len() implies #[trigger] longer[k] == 0 by {
            if k < raw.len() {
                assert(raw[k] == 0);
            }
        }
    }
}

/// Whether all that `decode` returns for a field's bytes is `value`.
pub open spec fn decodes_to<D, F: Fn(Vec<u8>) -> Result<D, ssz::DecodeError>>(
    decode: F,
    bytes: Seq<u8>,
    value: D,
) -> bool {
    forall|field: Vec<u8>, decoded: Result<D, ssz::DecodeError>|
        field@ == bytes && #[trigger] call_ensures(decode, (field,), decoded) ==> decoded == Ok::<
            D,
            ssz::DecodeError,
        >(value)
}

/// A payload and requests that decode from the encodings that were unpacked are what comes of
/// decoding these.
pub proof fn law_unpacked_fields_decode<
    P,
    R,
    F: Fn(Vec<u8>) -> Result<P, ssz::DecodeError>,
    G: Fn(Vec<u8>) -> Result<R, ssz::DecodeError>,
>(
    data: DataView,
    decode_payload: F,
    decode_requests: G,
    decoded: PayloadColumnData<P, R>,
    result: Result<PayloadColumnData<P, R>, PayloadColumnError>,
)
    requires
        decodes_to(decode_payload, data.payload, decoded.payload),
        decodes_to(decode_requests, data.execution_requests, decoded.execution_requests),
        data_decoded(Ok(data), decode_payload, decode_requests, result),
    ensures
        result == Ok::<PayloadColumnData<P, R>, PayloadColumnError>(decoded),
{
}

/// A payload and requests that decode from their encodings come back from the blobs that these
/// were packed into.
pub proof fn law_fields_survive_packing<
    P,
    R,
    F: Fn(Vec<u8>) -> Result<P, ssz::DecodeError>,
    G: Fn(Vec<u8>) -> Result<R, ssz::DecodeError>,
>(
    data: DataView,
    decode_payload: F,
    decode_requests: G,
    decoded: PayloadColumnData<P, R>,
    result: Result<PayloadColumnData<P, R>, PayloadColumnError>,
)
    requires
        encoded_blobs(data) is Ok,
        decodes_to(decode_payload, data.payload, decoded.payload),
        decodes_to(decode_requests, data.execution_requests, decoded.execution_requests),
        data_decoded(
            decoded_blobs(encoded_blobs(data)->Ok_0),
            decode_payload,
            decode_requests,
            result,
        ),
    ensures
        result == Ok::<PayloadColumnData<P, R>, PayloadColumnError>(decoded),
{
    law_blobs_round_trip(data);
    law_unpacked_fields_decode(data, decode_payload, decode_requests, decoded, result);
}

/// A payload is packed exactly where its container's length fits in the length prefix and its
/// frame, 12 bytes longer than payload and requests, fits in the blobs of one block. It takes as
/// few blobs as hold the frame, each of its fixed size. Otherwise the error says which limit is
/// exceeded, and how many blobs it would take.
pub proof fn law_payloads_that_fit_are_packed(data: DataView)
    ensures
        ({
            let body = 8 + data.payload.len() + data.execution_requests.len();
            let len = 4 + body;
            let blobs = encoded_blobs(data);
            &&& blobs is Ok <==> body <= u32::MAX && len <= 4096 * 126976
            &&& blobs is Ok ==> {
                let n = blobs->Ok_0.len();
                &&& (n - 1) * 126976 < len <= n * 126976
                &&& forall|b: int| 0 <= b < n ==> (#[trigger] blobs->Ok_0[b]).len() == 131072
            }
            &&& body > u32::MAX ==> blobs == Err::<Seq<Seq<u8>>, ErrorView>(
                ErrorView::Internal("payload length does not fit in u32"@),
            )
            &&& body <= u32::MAX && len > 4096 * 126976 && len + 126975 <= usize::MAX ==> {
                &&& blobs matches Err(ErrorView::PayloadTooLarge { blobs: n, max })
                &&& max == 4096
                &&& (n - 1) * 126976 < len <= n * 126976
            }
        }),
{
    let len = framed(data).len();
    assert(len == 12 + data.payload.len() + data.execution_requests.len());
    lemma_blobs_needed(len);
}

/// As few blobs are needed as hold a number of bytes, or too many for one block.
proof fn lemma_blobs_needed(len: nat)
    requires
        len > 0,
    ensures
        len + 126975 <= usize::MAX ==> (blobs_needed(len) - 1) * 126976 < len <= blobs_needed(len)
            * 126976,
        len + 126975 > usize::MAX ==> blobs_needed(len) > 4096,
{
    let padded = len + 126975;
    if padded <= usize::MAX {
        let n = padded / 126976;
        assert(n * 126976 <= padded < (n + 1) * 126976);
    } else {
        assert(usize::MAX as nat / 126976nat > 4096);
    }
}

/// Four bytes stand for the sum of their digits to the base of 256.
proof fn lemma_four_bytes(bytes: Seq<u8>)
    requires
        bytes.len() == 4,
    ensures
        big_endian(bytes) == bytes[0] * 16777216 + bytes[1] * 65536 + bytes[2] * 256 + bytes[3],
{
    let three = bytes.drop_last();
    let two = three.drop_last();
    let one = two.drop_last();
    assert(big_endian(one.drop_last()) == 0);
    assert(big_endian(one) == bytes[0]);
    assert(big_endian(two) == big_endian(one) * 256 + bytes[1]);
    assert(big_endian(three) == big_endian(two) * 256 + bytes[2]);
}

/// A frame begins with the length of what follows, as a big-endian number of four bytes. Then come
/// the offsets of payload and requests, as little-endian numbers of four bytes, and then payload
/// and requests themselves.
pub proof fn law_frame_layout(data: DataView)
    requires
        8 + data.payload.len() + data.execution_requests.len() <= u32::MAX,
    ensures
        ({
            let frame = framed(data);
            let second = 12 + data.payload.len() as int;
            &&& frame.len() == second + data.execution_requests.len()
            &&& big_endian(frame.subrange(0, 4)) == frame.len() - 4
            &&& big_endian(frame.subrange(4, 8).reverse()) == 8
            &&& big_endian(frame.subrange(8, 12).reverse()) == second - 4
            &&& frame.subrange(12, second) == data.payload
            &&& frame.subrange(second, frame.len() as int) == data.execution_requests
        }),
{
    let frame = framed(data);
    let body = ssz_container(data);
    let second = 12 + data.payload.len() as int;
    lemma_sum_of_digits(body.len());
    lemma_sum_of_digits(8);
    lemma_sum_of_digits(8 + data.payload.len());
    lemma_four_bytes(frame.subrange(0, 4));
    lemma_four_bytes(frame.subrange(4, 8).reverse());
    lemma_four_bytes(frame.subrange(8, 12).reverse());
    assert(frame.subrange(12, second) =~= data.payload);
    assert(frame.subrange(second, frame.len() as int) =~= data.execution_requests);
}

/// A frame is spread over field elements 31 bytes at a time, behind a most significant byte of
/// zero, and zeroes fill what it leaves of the blobs.
pub proof fn law_frame_is_spread_over_field_elements(data: DataView, b: int, i: int, t: int)
    requires
        encoded_blobs(data) is Ok,
        0 <= b < encoded_blobs(data)->Ok_0.len(),
        0 <= i < 4096,
        0 <= t < 31,
    ensures
        ({
            let blob = encoded_blobs(data)->Ok_0[b];
            let k = (4096 * b + i) * 31 + t;
            &&& blob[32 * i] == 0
            &&& blob[32 * i + 1 + t] == if k < framed(data).len() {
                framed(data)[k]
            } else {
                0
            }
        }),
{
    lemma_packed_at(framed(data), b, i, t);
}

/// What stands in a field element of packed blobs.
proof fn lemma_packed_at(bytes: Seq<u8>, b: int, i: int, t: int)
    requires
        0 <= b,
        0 <= i < 4096,
        0 <= t < 31,
    ensures
        packed_blob(bytes, b)[32 * i] == 0,
        packed_blob(bytes, b)[32 * i + 1 + t] == if (4096 * b + i) * 31 + t < bytes.len() {
            bytes[(4096 * b + i) * 31 + t]
        } else {
            0
        },
{
    let j = 32 * i + 1 + t;
    assert((32 * i) % 32 == 0);
    assert(j / 32 == i && j % 32 == 1 + t);
    assert(b * 126976 + i * 31 + t == (4096 * b + i) * 31 + t);
}

/// The bytes of field elements behind their most significant bytes, in order, are the usable bytes.
proof fn lemma_raw_bytes(blobs: Seq<Seq<u8>>, raw: Seq<u8>)
    requires
        raw.len() == blobs.len() * 126976,
        forall|b: int, i: int, t: int|
            0 <= b < blobs.len() && 0 <= i < 4096 && 0 <= t < 31 ==> #[trigger] blobs[b][32 * i + 1
                + t] == raw[(4096 * b + i) * 31 + t],
    ensures
        usable_bytes(blobs) == raw,
{
    assert forall|k: int| 0 <= k < raw.len() implies #[trigger] usable_bytes(blobs)[k]
        == raw[k] by {
        let b = k / 126976;
        let r = k % 126976;
        let i = r / 31;
        let t = r % 31;
        assert(0 <= b < blobs.len());
        assert(0 <= i < 4096);
        assert((4096 * b + i) * 31 + t == k);
        assert(blobs[b][32 * i + 1 + t] == raw[(4096 * b + i) * 31 + t]);
        assert((r / 31) * 32 + 1 + r % 31 == 32 * i + 1 + t);
    }
    assert(usable_bytes(blobs) =~= raw);
}

/// The first field element whose most significant byte is not zero is refused, by its offset in the
/// blobs.
pub proof fn law_first_wide_field_element_is_refused(blobs: Seq<Seq<u8>>, b: int, i: int)
    requires
        0 <= b < blobs.len(),
        0 <= i < 4096,
        b * 131072 + 32 * i <= usize::MAX,
        blobs[b][32 * i] != 0,
        forall|c: int, j: int|
            #![trigger blobs[c][32 * j]]
            0 <= c < blobs.len() && 0 <= j < 4096 && 4096 * c + j < 4096 * b + i
                ==> blobs[c][32 * j] == 0,
    ensures
        decoded_blobs(blobs) == Err::<DataView, ErrorView>(
            ErrorView::NonCanonicalFieldElement { offset: (b * 131072 + 32 * i) as usize },
        ),
{
    let g = (4096 * b + i) as nat;
    assert(g as int / 4096 == b && g as int % 4096 == i);
    assert(leading_byte(blobs, g as int) == blobs[b][i * 32]);
    assert forall|h: nat| h < g implies #[trigger] leading_byte(blobs, h as int) == 0 by {
        let c = h as int / 4096;
        let j = h as int % 4096;
        assert(4096 * c + j == h);
        assert(blobs[c][32 * j] == 0);
    }
    lemma_first_wide(blobs, 0, g);
    assert(g * 32 == b * 131072 + 32 * i);
}

/// The first field element that is not canonical is found.
proof fn lemma_first_wide(blobs: Seq<Seq<u8>>, from: nat, g: nat)
    requires
        from <= g < blobs.len() * FIELD_ELEMENTS_PER_BLOB as nat,
        leading_byte(blobs, g as int) != 0,
        forall|h: nat| h < g ==> #[trigger] leading_byte(blobs, h as int) == 0,
    ensures
        first_non_canonical(blobs, from) == Some(g),
    decreases g - from,
{
    if from < g {
        assert(leading_byte(blobs, from as int) == 0);
        lemma_first_wide(blobs, from + 1, g);
    }
}

/// Without a field element whose most significant byte is not zero, none is found.
proof fn lemma_none_wide(blobs: Seq<Seq<u8>>, from: nat)
    requires
        forall|c: int, j: int|
            #![trigger blobs[c][32 * j]]
            0 <= c < blobs.len() && 0 <= j < 4096 ==> blobs[c][32 * j] == 0,
    ensures
        first_non_canonical(blobs, from) is None,
    decreases blobs.len() * FIELD_ELEMENTS_PER_BLOB as nat - from,
{
    if from < blobs.len() * FIELD_ELEMENTS_PER_BLOB as nat {
        let c = from as int / 4096;
        let j = from as int % 4096;
        assert(0 <= c < blobs.len());
        assert(blobs[c][32 * j] == 0);
        lemma_none_wide(blobs, from + 1);
    }
}

/// What blobs of canonical field elements decode to, by the bytes `raw` behind the most significant
/// byte of each. The first four of these are the length, big-endian. The bytes of that length that
/// follow are a container of two fields behind their offsets, which are little-endian. All bytes
/// behind it are zero. The first of these that does not hold decides the error.
pub proof fn law_canonical_blobs_decode_as_laid_out(blobs: Seq<Seq<u8>>, raw: Seq<u8>)
    requires
        raw.len() == blobs.len() * 126976,
        raw.len() <= usize::MAX,
        forall|b: int, i: int|
            #![trigger blobs[b][32 * i]]
            0 <= b < blobs.len() && 0 <= i < 4096 ==> blobs[b][32 * i] == 0,
        forall|b: int, i: int, t: int|
            0 <= b < blobs.len() && 0 <= i < 4096 && 0 <= t < 31 ==> #[trigger] blobs[b][32 * i + 1
                + t] == raw[(4096 * b + i) * 31 + t],
    ensures
        blobs.len() == 0 ==> decoded_blobs(blobs) == Err::<DataView, ErrorView>(
            ErrorView::InvalidLengthPrefix { declared: 0, available: 0 },
        ),
        blobs.len() > 0 ==> {
            let declared = big_endian(raw.subrange(0, 4)) as int;
            let body = raw.subrange(4, 4 + declared);
            let padded = forall|k: int| 4 + declared <= k < raw.len() ==> #[trigger] raw[k] == 0;
            let first = big_endian(body.subrange(0, 4).reverse()) as int;
            let second = big_endian(body.subrange(4, 8).reverse()) as int;
            let is_container = declared >= 8 && first == 8 && 8 <= second <= declared;
            &&& 4 + declared > usize::MAX ==> decoded_blobs(blobs) == Err::<DataView, ErrorView>(
                ErrorView::Arith(ArithError::Overflow),
            )
            &&& raw.len() < 4 + declared <= usize::MAX ==> decoded_blobs(blobs) == Err::<
                DataView,
                ErrorView,
            >(
                ErrorView::InvalidLengthPrefix {
                    declared: declared as usize,
                    available: raw.len() as usize,
                },
            )
            &&& 4 + declared <= raw.len() && !padded ==> decoded_blobs(blobs) == Err::<
                DataView,
                ErrorView,
            >(ErrorView::TrailingData)
            &&& 4 + declared <= raw.len() && padded && !is_container ==> decoded_blobs(blobs)
                == Err::<DataView, ErrorView>(ErrorView::Ssz(ssz_container_error(body)))
            &&& 4 + declared <= raw.len() && padded && is_container ==> decoded_blobs(blobs)
                == Ok::<DataView, ErrorView>(
                DataView {
                    payload: body.subrange(8, second),
                    execution_requests: body.subrange(second, declared),
                },
            )
        },
{
    lemma_none_wide(blobs, 0);
    lemma_raw_bytes(blobs, raw);
    if blobs.len() > 0 {
        assert(raw.len() >= 126976);
        lemma_four_bytes(raw.subrange(0, 4));
        let declared = be32_value(raw) as int;
        assert(declared == big_endian(raw.subrange(0, 4)));
        if 4 + declared <= raw.len() {
            let body = raw.subrange(4, 4 + declared);
            if declared >= 8 {
                lemma_four_bytes(body.subrange(0, 4).reverse());
                lemma_four_bytes(body.subrange(4, 8).reverse());
            }
            assert(is_padding(raw, 4 + declared) == (forall|k: int|
                4 + declared <= k < raw.len() ==> #[trigger] raw[k] == 0));
        }
    }
}

/// Blobs that decode to a payload hold its frame, spread over their field elements, and zeroes.
pub proof fn law_decodable_blobs_hold_the_frame(
    blobs: Seq<Seq<u8>>,
    data: DataView,
    b: int,
    i: int,
    t: int,
)
    requires
        forall|c: int| 0 <= c < blobs.len() ==> (#[trigger] blobs[c]).len() == 131072,
        blobs.len() * 126976 <= usize::MAX,
        decoded_blobs(blobs) == Ok::<DataView, ErrorView>(data),
        0 <= b < blobs.len(),
        0 <= i < 4096,
        0 <= t < 31,
    ensures
        framed(data).len() <= blobs.len() * 126976,
        blobs[b][32 * i] == 0,
        blobs[b][32 * i + 1 + t] == (if (4096 * b + i) * 31 + t < framed(data).len() {
            framed(data)[(4096 * b + i) * 31 + t]
        } else {
            0
        }),
{
    assert(framed(data).len() <= blobs.len() * 126976) by {
        lemma_frame_is_unambiguous(usable_bytes(blobs), data);
    }
    assert(blobs[b] == packed_blob(framed(data), b)) by {
        law_blobs_are_unambiguous(blobs, data);
    }
    lemma_packed_at(framed(data), b, i, t);
}

/// Where a field does not decode, its error is what comes of decoding; that of the payload first.
pub proof fn law_undecodable_fields_are_refused<
    P,
    R,
    F: Fn(Vec<u8>) -> Result<P, ssz::DecodeError>,
    G: Fn(Vec<u8>) -> Result<R, ssz::DecodeError>,
>(
    data: DataView,
    decode_payload: F,
    decode_requests: G,
    e: ssz::DecodeError,
    result: Result<PayloadColumnData<P, R>, PayloadColumnError>,
)
    requires
        data_decoded(Ok(data), decode_payload, decode_requests, result),
        ({
            ||| forall|field: Vec<u8>, decoded: Result<P, ssz::DecodeError>|
                field@ == data.payload && #[trigger] call_ensures(
                    decode_payload,
                    (field,),
                    decoded,
                ) ==> decoded == Err::<P, ssz::DecodeError>(e)
            ||| {
                &&& forall|field: Vec<u8>, decoded: Result<P, ssz::DecodeError>|
                    field@ == data.payload && #[trigger] call_ensures(
                        decode_payload,
                        (field,),
                        decoded,
                    ) ==> decoded is Ok
                &&& forall|field: Vec<u8>, decoded: Result<R, ssz::DecodeError>|
                    field@ == data.execution_requests && #[trigger] call_ensures(
                        decode_requests,
                        (field,),
                        decoded,
                    ) ==> decoded == Err::<R, ssz::DecodeError>(e)
            }
        }),
    ensures
        result == Err::<PayloadColumnData<P, R>, PayloadColumnError>(PayloadColumnError::Ssz(e)),
{
}

/// What was unpacked with an error is not decoded: the error is what comes of it.
pub proof fn law_unpacking_errors_stay<
    P,
    R,
    F: Fn(Vec<u8>) -> Result<P, ssz::DecodeError>,
    G: Fn(Vec<u8>) -> Result<R, ssz::DecodeError>,
>(
    e: ErrorView,
    decode_payload: F,
    decode_requests: G,
    result: Result<PayloadColumnData<P, R>, PayloadColumnError>,
)
    requires
        data_decoded(Err(e), decode_payload, decode_requests, result),
    ensures
        result is Err,
        result->Err_0@ == e,
{
}

/// What encoded data is seen to hold are its two fields.
pub proof fn law_encoded_data_holds_its_fields(data: EncodedPayloadData)
    ensures
        data@.payload == data.payload@,
        data@.execution_requests == data.execution_requests@,
{
}

/// A payload no longer than one that is packed is packed too, into no more blobs: only the length
/// decides.
pub proof fn law_shorter_payloads_are_packed_too<E: EthSpec>(
    longer: EncodedPayloadData,
    shorter: EncodedPayloadData,
    packed: Vec<Blob>,
    result: Result<Vec<Blob>, PayloadColumnError>,
)
    requires
        shorter.payload@.len() + shorter.execution_requests@.len() <= longer.payload@.len()
            + longer.execution_requests@.len(),
        call_ensures(payload_data_to_blobs::<E>, (&longer,), Ok(packed)),
        call_ensures(payload_data_to_blobs::<E>, (&shorter,), result),
    ensures
        result is Ok,
        result->Ok_0@.len() <= packed@.len(),
        packed@.len() <= 4096,
{
    law_payloads_that_fit_are_packed(longer@);
    law_payloads_that_fit_are_packed(shorter@);
    let (m, n) = (result->Ok_0@.len() as int, packed@.len() as int);
    assert((m - 1) * 126976 < n * 126976);
}

/// Different payloads are packed into different blobs.
pub proof fn law_packing_is_injective<E: EthSpec>(
    first: EncodedPayloadData,
    second: EncodedPayloadData,
    blobs: Vec<Blob>,
    others: Vec<Blob>,
)
    requires
        call_ensures(payload_data_to_blobs::<E>, (&first,), Ok(blobs)),
        call_ensures(payload_data_to_blobs::<E>, (&second,), Ok(others)),
        blobs_of(blobs@) == blobs_of(others@),
    ensures
        first.payload@ == second.payload@,
        first.execution_requests@ == second.execution_requests@,
{
    law_blobs_round_trip(first@);
    law_blobs_round_trip(second@);
    assert(first@ == second@);
}

/// Unpacking what was packed gives the payload and the requests back.
pub proof fn law_unpacking_undoes_packing<E: EthSpec>(
    data: EncodedPayloadData,
    blobs: Vec<Blob>,
    result: Result<EncodedPayloadData, PayloadColumnError>,
)
    requires
        call_ensures(payload_data_to_blobs::<E>, (&data,), Ok(blobs)),
        call_ensures(unpack_blobs::<E>, (&blobs,), result),
    ensures
        result is Ok,
        result->Ok_0.payload@ == data.payload@,
        result->Ok_0.execution_requests@ == data.execution_requests@,
{
    law_blobs_round_trip(data@);
}

} // verus!
