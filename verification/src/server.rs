//! The registry's two requests, from the decoded body to the reply.
//!
//! `/register` creates a record and issues its nonce. `/update` refreshes
//! the caller's own address and resolves a peer; it is one step, so that no
//! other request sees the table between the two.

use crate::db::{authorised, generate_nonce, is_nonce, lookup, register_in, unix_now, update_in};
use crate::db::{writes, Database, Record};
use crate::identifier::{is_valid_id, key_of, validate_id};
use vstd::prelude::*;

verus! {

/// Body of `/register`.
#[derive(Clone, Debug)]
pub struct RegisterRequest {
    pub id: String,
    pub address: String,
}

/// Body of the reply to a registration that succeeded.
#[derive(Clone, Debug)]
pub struct RegisterResponse {
    pub nonce: String,
}

/// Body of `/update`.
#[derive(Clone, Debug)]
pub struct UpdateRequest {
    pub id: String,
    pub address: String,
    pub nonce: String,
    pub peer_id: String,
}

/// Body of the reply to an update that found the peer.
#[derive(Clone, Debug)]
pub struct UpdateResponse {
    pub peer_address: String,
}

/// The reply to `/register`.
#[derive(Clone, Debug)]
pub enum RegisterReply {
    /// 200: the record was created; the body holds its nonce.
    Registered(RegisterResponse),
    /// 409: the identifier is taken.
    Conflict,
    /// 400: the identifier is not a valid one.
    BadRequest,
    /// 500: the registry could not do its work.
    ServerError,
}

/// The reply to `/update`.
#[derive(Clone, Debug)]
pub enum UpdateReply {
    /// 200: the body holds the peer's address.
    Resolved(UpdateResponse),
    /// 401: the identifier is not registered, or the nonce is not its nonce.
    Unauthorized,
    /// 404: the peer has no fresh record.
    NotFound,
    /// 500: the registry could not do its work.
    ServerError,
}

impl RegisterReply {
    /// The HTTP status of this reply.
    pub open spec fn spec_status(&self) -> u16 {
        match self {
            RegisterReply::Registered(_) => 200,
            RegisterReply::Conflict => 409,
            RegisterReply::BadRequest => 400,
            RegisterReply::ServerError => 500,
        }
    }

    /// The HTTP status of this reply.
    #[verifier::when_used_as_spec(spec_status)]
    pub fn status(&self) -> (code: u16)
        ensures
            code == self.spec_status(),
    {
        match self {
            RegisterReply::Registered(_) => 200,
            RegisterReply::Conflict => 409,
            RegisterReply::BadRequest => 400,
            RegisterReply::ServerError => 500,
        }
    }
}

impl UpdateReply {
    /// The HTTP status of this reply.
    pub open spec fn spec_status(&self) -> u16 {
        match self {
            UpdateReply::Resolved(_) => 200,
            UpdateReply::Unauthorized => 401,
            UpdateReply::NotFound => 404,
            UpdateReply::ServerError => 500,
        }
    }

    /// The HTTP status of this reply.
    #[verifier::when_used_as_spec(spec_status)]
    pub fn status(&self) -> (code: u16)
        ensures
            code == self.spec_status(),
    {
        match self {
            UpdateReply::Resolved(_) => 200,
            UpdateReply::Unauthorized => 401,
            UpdateReply::NotFound => 404,
            UpdateReply::ServerError => 500,
        }
    }
}

/// The status with which a registration of `id` is answered.
pub open spec fn register_status(table: Map<Seq<char>, Record>, id: Seq<char>) -> u16 {
    if !is_valid_id(id) {
        400
    } else if table.contains_key(key_of(id)) {
        409
    } else {
        200
    }
}

/// The table after a registration request.
pub open spec fn table_after_register(
    table: Map<Seq<char>, Record>,
    id: Seq<char>,
    address: Seq<char>,
    nonce: Seq<char>,
    now: i64,
) -> Map<Seq<char>, Record> {
    if is_valid_id(id) {
        register_in(table, id, address, nonce, now)
    } else {
        table
    }
}

/// The status with which an update is answered: the caller's nonce is
/// judged first; only then is the peer looked up, in the table as the
/// update left it.
pub open spec fn update_status(
    table: Map<Seq<char>, Record>,
    id: Seq<char>,
    address: Seq<char>,
    nonce: Seq<char>,
    peer_id: Seq<char>,
    now: i64,
) -> u16 {
    if !authorised(table, id, nonce) {
        401
    } else if lookup(update_in(table, id, address, nonce, now), peer_id, now) is Some {
        200
    } else {
        404
    }
}

/// Answers `/register` at time `now`, with `nonce` as the nonce to issue.
pub fn register_with(db: &mut Database, req: &RegisterRequest, nonce: String, now: i64) -> (reply:
    RegisterReply)
    requires
        old(db).wf(),
    ensures
        final(db).wf(),
        final(db)@ == table_after_register(old(db)@, req.id@, req.address@, nonce@, now),
        reply.spec_status() == register_status(old(db)@, req.id@),
        reply matches RegisterReply::Registered(body) ==> body.nonce@ == nonce@,
{
    match validate_id(req.id.as_str()) {
        Err(_) => RegisterReply::BadRequest,
        Ok(()) => {
            let (created, issued) = db.register_with(req.id.as_str(), req.address.as_str(), nonce, now);
            if created {
                RegisterReply::Registered(RegisterResponse { nonce: issued })
            } else {
                RegisterReply::Conflict
            }
        },
    }
}

/// Answers `/register` now, issuing a fresh nonce. An identifier that is
/// not valid is answered 400 and one that is taken 409, whatever the clock
/// says. For any other the record is created with the clock's time and the
/// answer is 200 with the nonce; only where the clock gives no time that can
/// be stored is the answer 500, and nothing changes.
pub fn register(db: &mut Database, req: &RegisterRequest) -> (reply: RegisterReply)
    requires
        old(db).wf(),
    ensures
        final(db).wf(),
        reply is ServerError ==> register_status(old(db)@, req.id@) == 200,
        !(reply is ServerError) ==> reply.spec_status() == register_status(old(db)@, req.id@),
        match reply {
            RegisterReply::Registered(body) => {
                &&& is_nonce(body.nonce@)
                &&& exists|now: i64|
                    now >= 0 && final(db)@ == #[trigger] register_in(
                        old(db)@,
                        req.id@,
                        req.address@,
                        body.nonce@,
                        now,
                    )
            },
            _ => final(db)@ == old(db)@,
        },
{
    match validate_id(req.id.as_str()) {
        Err(_) => {
            return RegisterReply::BadRequest;
        },
        Ok(()) => {},
    }
    if db.contains(req.id.as_str()) {
        return RegisterReply::Conflict;
    }
    let now: i64 = match unix_now() {
        Ok(now) => now,
        Err(_) => {
            return RegisterReply::ServerError;
        },
    };
    let nonce = generate_nonce();
    let reply = register_with(db, req, nonce, now);
    proof {
        assert(reply is Registered);
        assert(db@ == register_in(old(db)@, req.id@, req.address@, reply->Registered_0.nonce@, now));
    }
    reply
}

/// Answers `/update` at time `now`.
pub fn update_at(db: &mut Database, req: &UpdateRequest, now: i64) -> (reply: UpdateReply)
    requires
        old(db).wf(),
    ensures
        final(db).wf(),
        final(db)@ == update_in(old(db)@, req.id@, req.address@, req.nonce@, now),
        reply.spec_status() == update_status(
            old(db)@,
            req.id@,
            req.address@,
            req.nonce@,
            req.peer_id@,
            now,
        ),
        reply matches UpdateReply::Resolved(body) ==> Some(body.peer_address@) == lookup(
            final(db)@,
            req.peer_id@,
            now,
        ),
{
    if !db.update_at(req.id.as_str(), req.address.as_str(), req.nonce.as_str(), now) {
        return UpdateReply::Unauthorized;
    }
    match db.get_ipv6_at(req.peer_id.as_str(), now) {
        Some(peer_address) => UpdateReply::Resolved(UpdateResponse { peer_address }),
        None => UpdateReply::NotFound,
    }
}

/// The answer to an update depends on the time: the update writes the
/// caller's record, or there is a record of the peer, whose age decides
/// whether it is found.
pub open spec fn update_needs_time(
    table: Map<Seq<char>, Record>,
    id: Seq<char>,
    address: Seq<char>,
    nonce: Seq<char>,
    peer_id: Seq<char>,
) -> bool {
    authorised(table, id, nonce) && (writes(table, id, address, nonce) || table.contains_key(
        key_of(peer_id),
    ))
}

/// Answers `/update` now. A caller that is not authorised is answered 401,
/// and one that writes nothing and asks for a peer without a record 404,
/// whatever the clock says. Every other answer is the one that `update_at`
/// gives for the clock's time; only where the clock gives no time that can
/// be stored is the answer 500, and nothing changes.
pub fn update(db: &mut Database, req: &UpdateRequest) -> (reply: UpdateReply)
    requires
        old(db).wf(),
    ensures
        final(db).wf(),
        reply is ServerError ==> {
            &&& update_needs_time(old(db)@, req.id@, req.address@, req.nonce@, req.peer_id@)
            &&& final(db)@ == old(db)@
        },
        !(reply is ServerError) ==> exists|now: i64|
            #![trigger update_in(old(db)@, req.id@, req.address@, req.nonce@, now)]
            {
                &&& now >= 0
                &&& final(db)@ == update_in(old(db)@, req.id@, req.address@, req.nonce@, now)
                &&& reply.spec_status() == update_status(
                    old(db)@,
                    req.id@,
                    req.address@,
                    req.nonce@,
                    req.peer_id@,
                    now,
                )
                &&& reply matches UpdateReply::Resolved(body) ==> Some(body.peer_address@)
                    == lookup(final(db)@, req.peer_id@, now)
            },
        !authorised(old(db)@, req.id@, req.nonce@) ==> reply is Unauthorized && final(db)@ == old(
            db,
        )@,
{
    let ghost before = db@;
    if !db.is_authorised(req.id.as_str(), req.nonce.as_str()) {
        proof {
            assert(before == update_in(before, req.id@, req.address@, req.nonce@, 0));
            assert(update_status(before, req.id@, req.address@, req.nonce@, req.peer_id@, 0) == 401);
        }
        return UpdateReply::Unauthorized;
    }
    if !db.would_write(req.id.as_str(), req.address.as_str(), req.nonce.as_str()) && !db.contains(
        req.peer_id.as_str(),
    ) {
        proof {
            assert(before == update_in(before, req.id@, req.address@, req.nonce@, 0));
            assert(lookup(before, req.peer_id@, 0) is None);
            assert(update_status(before, req.id@, req.address@, req.nonce@, req.peer_id@, 0) == 404);
        }
        return UpdateReply::NotFound;
    }
    let now: i64 = match unix_now() {
        Ok(now) => now,
        Err(_) => {
            return UpdateReply::ServerError;
        },
    };
    let reply = update_at(db, req, now);
    proof {
        assert(db@ == update_in(before, req.id@, req.address@, req.nonce@, now));
        assert(!(reply is ServerError));
    }
    reply
}

/// Who registers an identifier a second time is never answered 200: a
/// valid identifier is answered 409, and the record, with the nonce of the
/// first registration, is as it was.
pub proof fn lemma_second_registration_conflicts(
    table: Map<Seq<char>, Record>,
    id: Seq<char>,
    first_address: Seq<char>,
    first_nonce: Seq<char>,
    first_time: i64,
    second_address: Seq<char>,
    second_nonce: Seq<char>,
    second_time: i64,
)
    ensures
        ({
            let once = table_after_register(table, id, first_address, first_nonce, first_time);
            let twice = table_after_register(once, id, second_address, second_nonce, second_time);
            &&& register_status(once, id) != 200
            &&& is_valid_id(id) ==> register_status(once, id) == 409
            &&& twice == once
            &&& register_status(table, id) == 200 ==> twice[key_of(id)].nonce == first_nonce
        }),
{
}

/// Only a request that carries the nonce issued for its identifier can
/// change the table; every other one is answered 401 and changes nothing.
pub proof fn lemma_only_the_nonce_mutates(
    table: Map<Seq<char>, Record>,
    id: Seq<char>,
    address: Seq<char>,
    nonce: Seq<char>,
    peer_id: Seq<char>,
    now: i64,
)
    ensures
        !authorised(table, id, nonce) ==> {
            &&& update_status(table, id, address, nonce, peer_id, now) == 401
            &&& update_in(table, id, address, nonce, now) == table
        },
        update_in(table, id, address, nonce, now) != table ==> authorised(table, id, nonce),
        update_in(table, id, address, nonce, now).dom() == table.dom(),
        forall|key: Seq<char>|
            table.contains_key(key) ==> (#[trigger] update_in(table, id, address, nonce, now)[key]).nonce
                == table[key].nonce,
        forall|key: Seq<char>|
            table.contains_key(key) && key != key_of(id) ==> #[trigger] update_in(
                table,
                id,
                address,
                nonce,
                now,
            )[key] == table[key],
{
    let after = update_in(table, id, address, nonce, now);
    assert(after.dom() =~= table.dom());
}

/// A record that is more than a year old is not found by a lookup, and no
/// `/update` resolves it for as long as it stays as it is; yet it stays in
/// the table, whoever asks for it.
pub proof fn lemma_stale_record_is_invisible(
    table: Map<Seq<char>, Record>,
    id: Seq<char>,
    address: Seq<char>,
    nonce: Seq<char>,
    peer_id: Seq<char>,
    now: i64,
)
    requires
        table.contains_key(key_of(peer_id)),
        now - table[key_of(peer_id)].updated_at > 31_536_000,
    ensures
        lookup(table, peer_id, now) is None,
        update_in(table, id, address, nonce, now).contains_key(key_of(peer_id)),
        update_in(table, id, address, nonce, now)[key_of(peer_id)] == table[key_of(peer_id)]
            ==> update_status(table, id, address, nonce, peer_id, now) != 200,
        key_of(peer_id) != key_of(id) ==> update_in(table, id, address, nonce, now)[key_of(
            peer_id,
        )] == table[key_of(peer_id)],
{
}

/// An update with the address that is already stored writes nothing: the
/// second of two equal updates leaves the table, with its times, as the
/// first left it.
pub proof fn lemma_repeated_update_writes_nothing(
    table: Map<Seq<char>, Record>,
    id: Seq<char>,
    address: Seq<char>,
    nonce: Seq<char>,
    first_time: i64,
    second_time: i64,
)
    ensures
        !writes(update_in(table, id, address, nonce, first_time), id, address, nonce),
        update_in(update_in(table, id, address, nonce, first_time), id, address, nonce, second_time)
            == update_in(table, id, address, nonce, first_time),
        authorised(table, id, nonce) && table[key_of(id)].address == address ==> update_in(
            table,
            id,
            address,
            nonce,
            first_time,
        ) == table,
{
}

} // verus!
