use vstd::prelude::*;

use crate::form::{parse_form_data, parse_outcome, utf8_lossy, FormData};
use crate::response::HttpResponse;
use crate::store::{count_matching, insert_record, SubscriberRecord};

verus! {

/// One subscriber row as it is handed to the persistence layer: the
/// server-generated identifier and timestamp together with the
/// caller-supplied email and name.
#[derive(Debug)]
pub struct NewSubscriber {
    pub id: u128,
    pub email: String,
    pub name: String,
    pub subscribed_at_micros: i64,
}

/// Everything one accepted submission needs before its insert is issued: the
/// correlation identifier for this invocation's log lines (never persisted)
/// and the row to write.
#[derive(Debug)]
pub struct PreparedSubscription {
    pub request_id: u128,
    pub subscriber: NewSubscriber,
}

/// The row a NewSubscriber becomes once persisted.
pub open spec fn record_of(ns: NewSubscriber) -> SubscriberRecord {
    SubscriberRecord {
        id: ns.id,
        email: ns.email@,
        name: ns.name@,
        subscribed_at_micros: ns.subscribed_at_micros,
    }
}

/// The status code the subscription endpoint answers with: 400 when the body
/// does not decode into the two required fields, otherwise 200 or 500 as the
/// insert succeeded or failed.  No other code is ever produced, and the
/// insert error is never classified further.
pub open spec fn subscribe_status(body: Seq<u8>, insert_ok: bool) -> int {
    if parse_outcome(body) is Err {
        400
    } else if insert_ok {
        200
    } else {
        500
    }
}

/// Relies on uuid::Uuid::new_v4 for a freshly generated random identifier,
/// carried as its 128-bit value (Uuid::as_u128).  The result is random, so
/// nothing is promised of it; callers treat distinctness of two draws as a
/// hypothesis, never as a proved fact.
#[verifier::external_body]
fn fresh_id() -> u128 {
    uuid::Uuid::new_v4().as_u128()
}

/// Relies on chrono::Utc::now for the current UTC time, carried as the
/// number of microseconds since the Unix epoch (DateTime::timestamp_micros).
/// The result depends on the clock, so nothing is promised of it.
#[verifier::external_body]
fn now_micros() -> i64 {
    chrono::Utc::now().timestamp_micros()
}

/// The half of the subscription handler that runs before the database is
/// touched: decode the body, and either reject it with a 400 empty-body
/// response, or produce the correlation identifier and the row to insert.
/// The email and name of the row are exactly the decoded field values; the
/// identifier and timestamp are freshly generated.
pub fn subscribe_prepare(body: &[u8]) -> (r: Result<PreparedSubscription, HttpResponse>)
    ensures
        match r {
            Ok(p) => parse_outcome(body@) matches Ok(kv) && p.subscriber.email@ == utf8_lossy(kv.0)
                && p.subscriber.name@ == utf8_lossy(kv.1),
            Err(resp) => parse_outcome(body@) is Err && resp.status == 400 && resp.body@.len()
                == 0,
        },
{
    match parse_form_data(body) {
        Ok(fd) => {
            let request_id = fresh_id();
            let id = fresh_id();
            let subscribed_at_micros = now_micros();
            Ok(
                PreparedSubscription {
                    request_id,
                    subscriber: NewSubscriber {
                        id,
                        email: fd.email,
                        name: fd.name,
                        subscribed_at_micros,
                    },
                },
            )
        },
        Err(_) => Err(HttpResponse::empty(400)),
    }
}

/// The half of the subscription handler that runs after the insert: a
/// successful write is answered 200, any failed write 500, both with an
/// empty body, so no error detail ever reaches the caller.
pub fn subscribe_finish(insert_ok: bool) -> (r: HttpResponse)
    ensures
        r.status == (if insert_ok {
            200u16
        } else {
            500u16
        }),
        r.body@.len() == 0,
{
    if insert_ok {
        HttpResponse::empty(200)
    } else {
        HttpResponse::empty(500)
    }
}

/// Law: a body that decodes into the two required fields is answered 200
/// when its insert succeeds, and its row then exists exactly once in any
/// store that held no row with that (email, name) pair before.
pub proof fn lemma_accepted_pair_persisted_once(
    store: Seq<SubscriberRecord>,
    body: Seq<u8>,
    ns: NewSubscriber,
)
    requires
        parse_outcome(body) matches Ok(kv) && ns.email@ == utf8_lossy(kv.0) && ns.name@
            == utf8_lossy(kv.1),
        count_matching(store, ns.email@, ns.name@) == 0,
    ensures
        subscribe_status(body, true) == 200,
        count_matching(insert_record(store, record_of(ns)), ns.email@, ns.name@) == 1,
{
    crate::store::lemma_insert_effect(store, record_of(ns), ns.email@, ns.name@);
}

} // verus!
