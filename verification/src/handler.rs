//! Per-connection request handling.
//!
//! A connection moves through `AwaitHeader -> AwaitPayload -> Lookup ->
//! (MaybeConvert) -> RespondSuccess | RespondError -> Closed`. The first two
//! states are the wire codec: `codec::decode_header` and
//! `codec::FrameAccumulator`. `Lookup` and the decision of `MaybeConvert`
//! are [`handle_upload`]; the converter itself is an external collaborator
//! the shell invokes between the two calls; `RespondSuccess` is
//! [`complete_conversion`] followed by `codec::try_encode_response`. Every
//! error is handled per connection: the shell logs it and closes the socket
//! without a response frame.

use vstd::prelude::*;

use crate::CacheError;
use crate::digest::cache_key;
use crate::digest::key_of;
use crate::kind::MSFileType;
use crate::kind::kind_of_wire;
use crate::store::CacheModel;
use crate::store::clone_bytes;
use crate::store::spec_record_visit;
use crate::store::spec_store_derived;
use crate::store::spec_store_payload;

verus! {

/// What one accepted upload settles: the content key, the resolved document
/// kind, and whether a conversion must be triggered because no derived
/// artifact exists yet for the key.
pub struct UploadTicket {
    pub key: Vec<u8>,
    pub kind: MSFileType,
    pub needs_conversion: bool,
}

/// The store transition one accepted upload performs: the payload is stored
/// under its content key — created whole with its ledger record if the key
/// is new, left untouched otherwise — and the visit is recorded.
pub open spec fn spec_upload(
    m: Map<Seq<u8>, crate::store::EntryView>,
    payload: Seq<u8>,
    now: i64,
) -> Map<Seq<u8>, crate::store::EntryView> {
    spec_record_visit(spec_store_payload(m, key_of(payload), payload, now), key_of(payload), now)
}

/// `Lookup` and the `MaybeConvert` decision for one request.
///
/// A payload of fewer than two bytes is rejected as a malformed frame and
/// never reaches the content store. Otherwise the payload is stored
/// idempotently under its content key and the creation-or-visit is recorded;
/// then the wire kind is resolved, an unrecognized discriminator being
/// rejected rather than coerced. On success the ticket says whether a
/// conversion has to be triggered: exactly when no derived artifact existed
/// for the key.
pub fn handle_upload(store: &mut CacheModel, kind_wire: u32, payload: Vec<u8>, now: i64) -> (r:
    Result<UploadTicket, CacheError>)
    requires
        old(store).wf(),
    ensures
        final(store).wf(),
        payload@.len() <= 1 ==> r == Err::<UploadTicket, CacheError>(CacheError::MalformedFrame)
            && final(store)@ =~= old(store)@,
        payload@.len() > 1 ==> final(store)@ =~= spec_upload(old(store)@, payload@, now),
        payload@.len() > 1 && kind_of_wire(kind_wire) is None ==> r == Err::<
            UploadTicket,
            CacheError,
        >(CacheError::MalformedFrame),
        payload@.len() > 1 && kind_of_wire(kind_wire) is Some ==> (r matches Ok(t) && t.key@
            == key_of(payload@) && Some(t.kind) == kind_of_wire(kind_wire) && t.needs_conversion
            == !(old(store)@.contains_key(key_of(payload@)) && old(store)@[key_of(
            payload@,
        )].derived is Some)),
{
    if payload.len() <= 1 {
        return Err(CacheError::MalformedFrame);
    }
    let key = cache_key(&payload);
    let key_copy = clone_bytes(&key);
    let ghost m0 = store@;
    let ghost k = key@;
    store.store_payload(key_copy, payload, now);
    let ghost m1 = store@;
    store.record_visit(&key, now);
    let (_has_payload, has_derived) = store.lookup(&key);
    proof {
        assert(m1 == spec_store_payload(m0, k, payload@, now));
        assert(store@ == spec_record_visit(m1, k, now));
        assert(m1.contains_key(k));
        if m0.contains_key(k) {
            assert(store@[k].derived == m0[k].derived);
        } else {
            assert(m1[k].derived is None);
            assert(store@[k].derived is None);
        }
    }
    match MSFileType::from_wire(kind_wire) {
        Some(kind) => Ok(UploadTicket { key, kind, needs_conversion: !has_derived }),
        None => Err(CacheError::MalformedFrame),
    }
}

/// `MaybeConvert`'s outcome and `RespondSuccess`'s read, after the external
/// converter was given its chance.
///
/// `artifact` is the content of the converter's output file, or `None` if
/// that file does not exist — absence of the output is the definitive
/// failure signal, reported as `ConversionFailed` rather than retried. An
/// artifact is written at most once: a concurrent conversion that lost the
/// race changes nothing, and every reader is handed the first writer's
/// bytes. A key evicted in the meantime reads as `NotFound`.
pub fn complete_conversion(store: &mut CacheModel, key: &Vec<u8>, artifact: Option<Vec<u8>>) -> (r:
    Result<Vec<u8>, CacheError>)
    requires
        old(store).wf(),
    ensures
        final(store).wf(),
        artifact is None ==> r == Err::<Vec<u8>, CacheError>(CacheError::ConversionFailed)
            && final(store)@ =~= old(store)@,
        artifact matches Some(a) ==> final(store)@ =~= spec_store_derived(old(store)@, key@, a@),
        artifact matches Some(a) ==> (old(store)@.contains_key(key@) ==> (r matches Ok(b) && b@
            == (if old(store)@[key@].derived is Some {
            old(store)@[key@].derived->0
        } else {
            a@
        }))),
        artifact is Some && !old(store)@.contains_key(key@) ==> r == Err::<Vec<u8>, CacheError>(
            CacheError::NotFound,
        ),
{
    match artifact {
        Some(a) => {
            let ghost m0 = store@;
            store.store_derived(key, a);
            proof {
                if m0.contains_key(key@) {
                    assert(store@.contains_key(key@));
                    if m0[key@].derived is Some {
                        assert(store@[key@].derived == m0[key@].derived);
                    } else {
                        assert(store@[key@].derived == Some(a@));
                    }
                }
            }
            store.read_derived(key)
        },
        None => Err(CacheError::ConversionFailed),
    }
}

/// A first upload of an unseen payload triggers a conversion; once its
/// artifact is stored, downloading returns exactly those bytes, and a later
/// upload of the same payload finds the artifact present — conversion is
/// triggered at most once per key, and both downloads return the same bytes.
pub proof fn lemma_convert_once_round_trip(
    m: Map<Seq<u8>, crate::store::EntryView>,
    payload: Seq<u8>,
    artifact: Seq<u8>,
    n1: i64,
    n2: i64,
)
    requires
        !m.contains_key(key_of(payload)),
    ensures
        spec_upload(m, payload, n1)[key_of(payload)].derived is None,
        spec_store_derived(spec_upload(m, payload, n1), key_of(payload), artifact)[key_of(
            payload,
        )].derived == Some(artifact),
        spec_upload(
            spec_store_derived(spec_upload(m, payload, n1), key_of(payload), artifact),
            payload,
            n2,
        )[key_of(payload)].derived == Some(artifact),
{
}

} // verus!
