//! What the HTTP routes answer: requests become commands, and responses
//! become replies with a status. Routing and transport are not here.

use vstd::prelude::*;
use vstd::string::*;
use crate::cache::SetOptions;
use crate::cache::SetOptionsModel;
use crate::entry::opt_text;
use crate::executor::answers;
use crate::executor::Command;
use crate::executor::CommandExecutor;
use crate::executor::CommandModel;
use crate::executor::CommandResponse;
use crate::executor::KeyInfo;
use crate::executor::KeyInfoModel;
use crate::executor::ResponseModel;
use crate::text::owned;
use crate::text::push_signed_decimal;
use crate::text::signed_decimal;
use crate::ttl::NANOS_PER_SECOND;
use crate::value::texts_view;

verus! {

broadcast use vstd::seq::group_seq_axioms;

/// Why a request was not served.
#[derive(Debug)]
pub enum ApiError {
    NotFound(String),
    BadRequest(String),
    InternalError(String),
}

/// The mathematical content of an [`ApiError`].
pub enum ApiFault {
    NotFound(Seq<char>),
    BadRequest(Seq<char>),
    InternalError(Seq<char>),
}

impl View for ApiError {
    type V = ApiFault;

    open spec fn view(&self) -> ApiFault {
        match *self {
            ApiError::NotFound(m) => ApiFault::NotFound(m@),
            ApiError::BadRequest(m) => ApiFault::BadRequest(m@),
            ApiError::InternalError(m) => ApiFault::InternalError(m@),
        }
    }
}

impl ApiFault {
    /// The HTTP status that reports the error.
    pub open spec fn status(self) -> u16 {
        match self {
            ApiFault::NotFound(_) => 404,
            ApiFault::BadRequest(_) => 400,
            ApiFault::InternalError(_) => 500,
        }
    }

    /// The text that reports the error.
    pub open spec fn message(self) -> Seq<char> {
        match self {
            ApiFault::NotFound(m) => m,
            ApiFault::BadRequest(m) => m,
            ApiFault::InternalError(m) => m,
        }
    }
}

impl ApiError {
    /// The HTTP status and the text that report the error.
    pub fn into_parts(self) -> (parts: (u16, String))
        ensures
            parts.0 == self@.status(),
            parts.1@ == self@.message(),
    {
        match self {
            ApiError::NotFound(m) => (404, m),
            ApiError::BadRequest(m) => (400, m),
            ApiError::InternalError(m) => (500, m),
        }
    }
}

/// The body of a request to give a key an expiry.
#[derive(Debug, Clone)]
pub struct ExpireRequest {
    pub seconds: u64,
}

/// The body of a request that names several keys.
#[derive(Debug, Clone)]
pub struct MultiKeyRequest {
    pub keys: Vec<String>,
}

/// The body of a request to give a key a parent.
#[derive(Debug, Clone)]
pub struct SetParentRequest {
    pub parent: String,
}

/// The body of a request for what is below a key.
#[derive(Debug, Clone)]
pub struct GetChildrenRequest {
    pub depth: Option<u64>,
}

/// The query of a request to list keys.
#[derive(Debug, Clone)]
pub struct ListKeysQuery {
    pub pattern: Option<String>,
    pub limit: Option<u64>,
}

/// The body of a ping.
#[derive(Debug, Clone)]
pub struct PingRequest {
    pub message: Option<String>,
}

/// The body of a request to write a key. The expiry is in seconds.
#[derive(Debug, Clone)]
pub struct SetKeyRequest {
    pub value: String,
    pub ttl: Option<u64>,
    pub parent: Option<String>,
    pub nx: bool,
    pub xx: bool,
}

/// The content of a reply that is a text or an error.
pub open spec fn text_reply(r: Result<String, ApiError>) -> Result<Seq<char>, ApiFault> {
    match r {
        Ok(s) => Ok(s@),
        Err(e) => Err(e@),
    }
}

/// The content of a reply that is a number or an error.
pub open spec fn number_reply(r: Result<i64, ApiError>) -> Result<i64, ApiFault> {
    match r {
        Ok(n) => Ok(n),
        Err(e) => Err(e@),
    }
}

/// The content of a reply that is a list of keys or an error.
pub open spec fn list_reply(r: Result<Vec<String>, ApiError>) -> Result<Seq<Seq<char>>, ApiFault> {
    match r {
        Ok(l) => Ok(texts_view(l@)),
        Err(e) => Err(e@),
    }
}

/// The content of a reply that tells of a key or is an error.
pub open spec fn info_reply(r: Result<KeyInfo, ApiError>) -> Result<KeyInfoModel, ApiFault> {
    match r {
        Ok(i) => Ok(i@),
        Err(e) => Err(e@),
    }
}

/// The error for a response that the command cannot have.
pub open spec fn unexpected() -> ApiFault {
    ApiFault::InternalError("Unexpected response"@)
}

/// The error for a key that is not stored.
pub open spec fn key_not_found() -> ApiFault {
    ApiFault::NotFound("Key not found"@)
}

/// The reply to a response that is neither what the request hoped for
/// nor a lack of the key: an error of the cache is a bad request, anything
/// else is unexpected.
pub open spec fn failure(response: ResponseModel) -> ApiFault {
    match response {
        ResponseModel::Error(e) => ApiFault::BadRequest(e),
        _ => unexpected(),
    }
}

/// The text that tells how many keys were deleted.
pub open spec fn deleted_text(count: i64) -> Seq<char> {
    "Deleted "@ + signed_decimal(count as int) + " key(s)"@
}

/// The reply to a read of a key.
pub open spec fn get_key_reply(response: ResponseModel) -> Result<Seq<char>, ApiFault> {
    match response {
        ResponseModel::Value(v) => Ok(v),
        ResponseModel::Null => Err(key_not_found()),
        other => Err(failure(other)),
    }
}

/// The reply to a write of a key.
pub open spec fn set_key_reply(response: ResponseModel) -> Result<Seq<char>, ApiFault> {
    match response {
        ResponseModel::Okay => Ok("OK"@),
        ResponseModel::Null => Ok("Key unchanged"@),
        other => Err(failure(other)),
    }
}

/// The reply to the deletion of one key.
pub open spec fn delete_key_reply(response: ResponseModel) -> Result<Seq<char>, ApiFault> {
    match response {
        ResponseModel::Integer(count) => if count == 0 {
            Err(key_not_found())
        } else {
            Ok(deleted_text(count))
        },
        other => Err(failure(other)),
    }
}

/// The reply to the deletion of several keys.
pub open spec fn delete_multiple_reply(response: ResponseModel) -> Result<Seq<char>, ApiFault> {
    match response {
        ResponseModel::Integer(count) => Ok(deleted_text(count)),
        other => Err(failure(other)),
    }
}

/// The reply to a request for the time a key has left.
pub open spec fn get_ttl_reply(response: ResponseModel) -> Result<i64, ApiFault> {
    match response {
        ResponseModel::Integer(ttl) => if ttl == -2 {
            Err(key_not_found())
        } else {
            Ok(ttl)
        },
        other => Err(failure(other)),
    }
}

/// The reply to a request for what is known of a key.
pub open spec fn get_key_info_reply(response: ResponseModel) -> Result<KeyInfoModel, ApiFault> {
    match response {
        ResponseModel::KeyInfo(info) => Ok(info),
        other => Err(failure(other)),
    }
}

/// The reply to a change of one stored key: `done` where the key was
/// stored, not found where it was not.
pub open spec fn change_reply(response: ResponseModel, done: Seq<char>) -> Result<
    Seq<char>,
    ApiFault,
> {
    match response {
        ResponseModel::Integer(n) => if n == 1 {
            Ok(done)
        } else if n == 0 {
            Err(key_not_found())
        } else {
            Err(unexpected())
        },
        other => Err(failure(other)),
    }
}

/// The keys of a listing with depths.
pub open spec fn keys_of(pairs: Seq<(Seq<char>, u64)>) -> Seq<Seq<char>> {
    Seq::new(pairs.len(), |i: int| pairs[i].0)
}

/// The reply to a request for what is below a key.
pub open spec fn get_children_reply(response: ResponseModel) -> Result<Seq<Seq<char>>, ApiFault> {
    match response {
        ResponseModel::ArrayWithDepth(pairs) => Ok(keys_of(pairs)),
        other => Err(failure(other)),
    }
}

/// The reply to a listing of keys.
pub open spec fn list_keys_reply(response: ResponseModel) -> Result<Seq<Seq<char>>, ApiFault> {
    match response {
        ResponseModel::Array(keys) => Ok(keys),
        other => Err(failure(other)),
    }
}

/// The reply to a flush.
pub open spec fn flush_all_reply(response: ResponseModel) -> Result<Seq<char>, ApiFault> {
    match response {
        ResponseModel::Okay => Ok("All keys flushed"@),
        other => Err(failure(other)),
    }
}

/// The reply to a ping.
pub open spec fn ping_reply(response: ResponseModel) -> Result<Seq<char>, ApiFault> {
    match response {
        ResponseModel::Value(msg) => Ok(msg),
        other => Err(failure(other)),
    }
}

/// The reply to a count of stored keys.
pub open spec fn check_exists_reply(response: ResponseModel) -> Result<i64, ApiFault> {
    match response {
        ResponseModel::Integer(count) => Ok(count),
        other => Err(failure(other)),
    }
}

/// The options that a request to write a key asks for.
pub open spec fn options_of(req: SetKeyRequest) -> SetOptionsModel {
    SetOptionsModel {
        ttl: match req.ttl {
            Some(s) => Some((s * NANOS_PER_SECOND) as u128),
            None => None,
        },
        parent: opt_text(req.parent),
        nx: req.nx,
        xx: req.xx,
    }
}

/// The pattern that a listing asks for: every key where it names none.
pub open spec fn pattern_of(pattern: Option<String>) -> Seq<char> {
    match pattern {
        Some(p) => p@,
        None => "*"@,
    }
}

/// The message that a ping carries, if it carries one.
pub open spec fn message_of(req: Option<PingRequest>) -> Option<Seq<char>> {
    match req {
        Some(p) => opt_text(p.message),
        None => None,
    }
}

fn key_not_found_error() -> (e: ApiError)
    ensures
        e@ == key_not_found(),
{
    ApiError::NotFound(owned("Key not found"))
}

fn failure_of(response: CommandResponse) -> (e: ApiError)
    ensures
        e@ == failure(response@),
{
    match response {
        CommandResponse::Error(e) => ApiError::BadRequest(e),
        _ => ApiError::InternalError(owned("Unexpected response")),
    }
}

fn deleted_message(count: i64) -> (s: String)
    ensures
        s@ == deleted_text(count),
{
    let mut out = owned("Deleted ");
    push_signed_decimal(&mut out, count);
    out.append(" key(s)");
    out
}

fn change_reply_of(response: CommandResponse, done: &str) -> (r: Result<String, ApiError>)
    ensures
        text_reply(r) == change_reply(response@, done@),
{
    match response {
        CommandResponse::Integer(n) => if n == 1 {
            Ok(owned(done))
        } else if n == 0 {
            Err(key_not_found_error())
        } else {
            Err(ApiError::InternalError(owned("Unexpected response")))
        },
        other => Err(failure_of(other)),
    }
}

/// Whether `response` is an answer to `command`, put to the executor
/// before at the time that its clock shows after.
pub open spec fn served(
    before: CommandExecutor,
    command: CommandModel,
    after: CommandExecutor,
    response: ResponseModel,
) -> bool {
    answers(
        before.cache@,
        before.cache.settings(),
        command,
        after.cache.time(),
        after.cache@,
        response,
    )
}

/// Whether a handler left the executor as every handler does: the clock
/// no earlier, the configuration and the shards as they were, a well-formed
/// cache well formed.
pub open spec fn handled(before: CommandExecutor, after: CommandExecutor) -> bool {
    &&& after.cache.time() >= before.cache.time()
    &&& after.cache.settings() == before.cache.settings()
    &&& after.cache.shards() == before.cache.shards()
    &&& before.cache@.well_formed() ==> after.cache@.well_formed()
}

/// The metrics of the cache as a text.
pub fn get_metrics(executor: &CommandExecutor) -> (s: String)
    ensures
        s@ == executor.cache@.stats.rendered(),
{
    executor.cache.stats().render()
}

/// Reads a key: its value as a text, or not found.
pub fn get_key(executor: &mut CommandExecutor, key: String) -> (r: Result<String, ApiError>)
    ensures
        handled(*old(executor), *final(executor)),
        exists|response: ResponseModel| #[trigger]
            served(*old(executor), CommandModel::Get { key: key@ }, *final(executor), response)
                && text_reply(r) == get_key_reply(response),
{
    let response = executor.execute(Command::Get { key });
    assert(served(*old(executor), CommandModel::Get { key: key@ }, *executor, response@));
    match response {
        CommandResponse::Value(v) => Ok(v),
        CommandResponse::Null => Err(key_not_found_error()),
        other => Err(failure_of(other)),
    }
}

/// Writes a key as the request asks.
pub fn set_key(executor: &mut CommandExecutor, key: String, req: SetKeyRequest) -> (r: Result<
    String,
    ApiError,
>)
    ensures
        handled(*old(executor), *final(executor)),
        exists|response: ResponseModel| #[trigger]
            served(
                *old(executor),
                CommandModel::SetValue { key: key@, value: req.value@, options: options_of(req) },
                *final(executor),
                response,
            ) && text_reply(r) == set_key_reply(response),
{
    let ttl = match req.ttl {
        Some(s) => Some(s as u128 * NANOS_PER_SECOND),
        None => None,
    };
    let options = SetOptions { ttl, parent: req.parent, nx: req.nx, xx: req.xx };
    let response = executor.execute(Command::SetValue { key, value: req.value, options });
    assert(served(
        *old(executor),
        CommandModel::SetValue { key: key@, value: req.value@, options: options_of(req) },
        *executor,
        response@,
    ));
    match response {
        CommandResponse::Okay => Ok(owned("OK")),
        CommandResponse::Null => Ok(owned("Key unchanged")),
        other => Err(failure_of(other)),
    }
}

/// Deletes one key: how many keys went, or not found.
pub fn delete_key(executor: &mut CommandExecutor, key: String) -> (r: Result<String, ApiError>)
    ensures
        handled(*old(executor), *final(executor)),
        exists|response: ResponseModel| #[trigger]
            served(*old(executor), CommandModel::Del { keys: seq![key@] }, *final(executor), response)
                && text_reply(r) == delete_key_reply(response),
{
    let mut keys: Vec<String> = Vec::new();
    keys.push(key);
    assert(texts_view(keys@) =~= seq![key@]);
    let response = executor.execute(Command::Del { keys });
    assert(served(*old(executor), CommandModel::Del { keys: seq![key@] }, *executor, response@));
    match response {
        CommandResponse::Integer(count) => if count == 0 {
            Err(key_not_found_error())
        } else {
            Ok(deleted_message(count))
        },
        other => Err(failure_of(other)),
    }
}

/// The seconds that a key has left, or not found.
pub fn get_ttl(executor: &mut CommandExecutor, key: String) -> (r: Result<i64, ApiError>)
    ensures
        handled(*old(executor), *final(executor)),
        exists|response: ResponseModel| #[trigger]
            served(*old(executor), CommandModel::Ttl { key: key@ }, *final(executor), response)
                && number_reply(r) == get_ttl_reply(response),
{
    let response = executor.execute(Command::Ttl { key });
    assert(served(*old(executor), CommandModel::Ttl { key: key@ }, *executor, response@));
    match response {
        CommandResponse::Integer(ttl) => if ttl == -2 {
            Err(key_not_found_error())
        } else {
            Ok(ttl)
        },
        other => Err(failure_of(other)),
    }
}

/// What is known of a key.
pub fn get_key_info(executor: &mut CommandExecutor, key: String) -> (r: Result<KeyInfo, ApiError>)
    ensures
        handled(*old(executor), *final(executor)),
        exists|response: ResponseModel| #[trigger]
            served(*old(executor), CommandModel::GetInfo { key: key@ }, *final(executor), response)
                && info_reply(r) == get_key_info_reply(response),
{
    let response = executor.execute(Command::GetInfo { key });
    assert(served(*old(executor), CommandModel::GetInfo { key: key@ }, *executor, response@));
    match response {
        CommandResponse::KeyInfo(info) => Ok(info),
        other => Err(failure_of(other)),
    }
}

/// Gives a key the expiry that the request asks for.
pub fn set_expire(executor: &mut CommandExecutor, key: String, req: ExpireRequest) -> (r: Result<
    String,
    ApiError,
>)
    ensures
        handled(*old(executor), *final(executor)),
        exists|response: ResponseModel| #[trigger]
            served(
                *old(executor),
                CommandModel::Expire { key: key@, seconds: req.seconds },
                *final(executor),
                response,
            ) && text_reply(r) == change_reply(response, "Expiry set"@),
{
    let response = executor.execute(Command::Expire { key, seconds: req.seconds });
    assert(served(
        *old(executor),
        CommandModel::Expire { key: key@, seconds: req.seconds },
        *executor,
        response@,
    ));
    change_reply_of(response, "Expiry set")
}

/// Takes the expiry from a key.
pub fn persist_key(executor: &mut CommandExecutor, key: String) -> (r: Result<String, ApiError>)
    ensures
        handled(*old(executor), *final(executor)),
        exists|response: ResponseModel| #[trigger]
            served(*old(executor), CommandModel::Persist { key: key@ }, *final(executor), response)
                && text_reply(r) == change_reply(response, "Key persisted"@),
{
    let response = executor.execute(Command::Persist { key });
    assert(served(*old(executor), CommandModel::Persist { key: key@ }, *executor, response@));
    change_reply_of(response, "Key persisted")
}

/// Gives a key the parent that the request names.
pub fn set_parent(executor: &mut CommandExecutor, key: String, req: SetParentRequest) -> (r: Result<
    String,
    ApiError,
>)
    ensures
        handled(*old(executor), *final(executor)),
        exists|response: ResponseModel| #[trigger]
            served(
                *old(executor),
                CommandModel::SetParent { key: key@, parent: req.parent@ },
                *final(executor),
                response,
            ) && text_reply(r) == change_reply(response, "Parent set"@),
{
    let response = executor.execute(Command::SetParent { key, parent: req.parent });
    assert(served(
        *old(executor),
        CommandModel::SetParent { key: key@, parent: req.parent@ },
        *executor,
        response@,
    ));
    change_reply_of(response, "Parent set")
}

/// The keys below a key, down to the depth that the request gives.
pub fn get_children(executor: &mut CommandExecutor, key: String, req: GetChildrenRequest) -> (r:
    Result<Vec<String>, ApiError>)
    ensures
        handled(*old(executor), *final(executor)),
        exists|response: ResponseModel| #[trigger]
            served(
                *old(executor),
                CommandModel::GetChildren { parent: key@, depth: req.depth },
                *final(executor),
                response,
            ) && list_reply(r) == get_children_reply(response),
{
    let response = executor.execute(Command::GetChildren { parent: key, depth: req.depth });
    assert(served(
        *old(executor),
        CommandModel::GetChildren { parent: key@, depth: req.depth },
        *executor,
        response@,
    ));
    match response {
        CommandResponse::ArrayWithDepth(children) => {
            let mut keys: Vec<String> = Vec::new();
            let mut i: usize = 0;
            while i < children.len()
                invariant
                    i <= children.len(),
                    keys@.len() == i,
                    forall|j: int| 0 <= j < i ==> keys@[j]@ == children@[j].0@,
                decreases children.len() - i,
            {
                keys.push(children[i].0.clone());
                i = i + 1;
            }
            assert(texts_view(keys@) =~= keys_of(crate::model::pairs_view(children@)));
            Ok(keys)
        },
        other => Err(failure_of(other)),
    }
}

/// The keys that the query's pattern matches, up to its limit.
pub fn list_keys(executor: &mut CommandExecutor, params: ListKeysQuery) -> (r: Result<
    Vec<String>,
    ApiError,
>)
    ensures
        handled(*old(executor), *final(executor)),
        exists|response: ResponseModel| #[trigger]
            served(
                *old(executor),
                CommandModel::ListKeys { pattern: pattern_of(params.pattern), limit: params.limit },
                *final(executor),
                response,
            ) && list_reply(r) == list_keys_reply(response),
{
    let pattern = match params.pattern {
        Some(p) => p,
        None => owned("*"),
    };
    let response = executor.execute(Command::ListKeys { pattern, limit: params.limit });
    assert(served(
        *old(executor),
        CommandModel::ListKeys { pattern: pattern_of(params.pattern), limit: params.limit },
        *executor,
        response@,
    ));
    match response {
        CommandResponse::Array(keys) => Ok(keys),
        other => Err(failure_of(other)),
    }
}

/// Deletes the keys that the request names.
pub fn delete_multiple(executor: &mut CommandExecutor, req: MultiKeyRequest) -> (r: Result<
    String,
    ApiError,
>)
    ensures
        handled(*old(executor), *final(executor)),
        exists|response: ResponseModel| #[trigger]
            served(
                *old(executor),
                CommandModel::Del { keys: texts_view(req.keys@) },
                *final(executor),
                response,
            ) && text_reply(r) == delete_multiple_reply(response),
{
    let response = executor.execute(Command::Del { keys: req.keys });
    assert(served(
        *old(executor),
        CommandModel::Del { keys: texts_view(req.keys@) },
        *executor,
        response@,
    ));
    match response {
        CommandResponse::Integer(count) => Ok(deleted_message(count)),
        other => Err(failure_of(other)),
    }
}

/// Drops every key.
pub fn flush_all(executor: &mut CommandExecutor) -> (r: Result<String, ApiError>)
    ensures
        handled(*old(executor), *final(executor)),
        exists|response: ResponseModel| #[trigger]
            served(*old(executor), CommandModel::FlushAll {  }, *final(executor), response)
                && text_reply(r) == flush_all_reply(response),
{
    let response = executor.execute(Command::FlushAll {  });
    assert(served(*old(executor), CommandModel::FlushAll {  }, *executor, response@));
    match response {
        CommandResponse::Okay => Ok(owned("All keys flushed")),
        other => Err(failure_of(other)),
    }
}

/// Answers a ping with its message, or with the usual word where it has none.
pub fn ping(executor: &mut CommandExecutor, req: Option<PingRequest>) -> (r: Result<String, ApiError>)
    ensures
        handled(*old(executor), *final(executor)),
        exists|response: ResponseModel| #[trigger]
            served(
                *old(executor),
                CommandModel::Ping { message: message_of(req) },
                *final(executor),
                response,
            ) && text_reply(r) == ping_reply(response),
{
    let message = match req {
        Some(p) => p.message,
        None => None,
    };
    let response = executor.execute(Command::Ping { message });
    assert(served(
        *old(executor),
        CommandModel::Ping { message: opt_text(message) },
        *executor,
        response@,
    ));
    match response {
        CommandResponse::Value(msg) => Ok(msg),
        other => Err(failure_of(other)),
    }
}

/// How many of the keys that the request names are stored with a valid entry.
pub fn check_exists(executor: &mut CommandExecutor, req: MultiKeyRequest) -> (r: Result<
    i64,
    ApiError,
>)
    ensures
        handled(*old(executor), *final(executor)),
        exists|response: ResponseModel| #[trigger]
            served(
                *old(executor),
                CommandModel::Exists { keys: texts_view(req.keys@) },
                *final(executor),
                response,
            ) && number_reply(r) == check_exists_reply(response),
{
    let response = executor.execute(Command::Exists { keys: req.keys });
    assert(served(
        *old(executor),
        CommandModel::Exists { keys: texts_view(req.keys@) },
        *executor,
        response@,
    ));
    match response {
        CommandResponse::Integer(count) => Ok(count),
        other => Err(failure_of(other)),
    }
}

} // verus!
