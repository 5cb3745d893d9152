//! The executor: commands in, responses out.

use vstd::prelude::*;
use vstd::string::*;
use crate::cache::Cache;
use crate::cache::Config;
use crate::cache::SetOptions;
use crate::cache::SetOptionsModel;
use crate::entry::opt_text;
use crate::model::CacheModel;
use crate::model::count_valid;
use crate::model::key_valid;
use crate::model::pairs_view;
use crate::model::parent_of;
use crate::model::strs_view;
use crate::text::owned;
use crate::value::texts_view;
use crate::value::Value;
use crate::value::ValueModel;

verus! {

broadcast use vstd::seq::group_seq_axioms;

/// What a client can ask of the cache.
#[derive(Debug, Clone)]
pub enum Command {
    Get { key: String },
    SetValue { key: String, value: String, options: SetOptions },
    Del { keys: Vec<String> },
    Expire { key: String, seconds: u64 },
    Ttl { key: String },
    Persist { key: String },
    Exists { keys: Vec<String> },
    Ping { message: Option<String> },
    ListKeys { pattern: String, limit: Option<u64> },
    FlushAll {  },
    SetParent { key: String, parent: String },
    GetParent { key: String },
    GetChildren { parent: String, depth: Option<u64> },
    GetInfo { key: String },
}

/// The mathematical content of a [`Command`].
pub enum CommandModel {
    Get { key: Seq<char> },
    SetValue { key: Seq<char>, value: Seq<char>, options: SetOptionsModel },
    Del { keys: Seq<Seq<char>> },
    Expire { key: Seq<char>, seconds: u64 },
    Ttl { key: Seq<char> },
    Persist { key: Seq<char> },
    Exists { keys: Seq<Seq<char>> },
    Ping { message: Option<Seq<char>> },
    ListKeys { pattern: Seq<char>, limit: Option<u64> },
    FlushAll {  },
    SetParent { key: Seq<char>, parent: Seq<char> },
    GetParent { key: Seq<char> },
    GetChildren { parent: Seq<char>, depth: Option<u64> },
    GetInfo { key: Seq<char> },
}

impl View for Command {
    type V = CommandModel;

    open spec fn view(&self) -> CommandModel {
        match *self {
            Command::Get { key } => CommandModel::Get { key: key@ },
            Command::SetValue { key, value, options } => CommandModel::SetValue {
                key: key@,
                value: value@,
                options: options@,
            },
            Command::Del { keys } => CommandModel::Del { keys: texts_view(keys@) },
            Command::Expire { key, seconds } => CommandModel::Expire { key: key@, seconds },
            Command::Ttl { key } => CommandModel::Ttl { key: key@ },
            Command::Persist { key } => CommandModel::Persist { key: key@ },
            Command::Exists { keys } => CommandModel::Exists { keys: texts_view(keys@) },
            Command::Ping { message } => CommandModel::Ping { message: opt_text(message) },
            Command::ListKeys { pattern, limit } => CommandModel::ListKeys {
                pattern: pattern@,
                limit,
            },
            Command::FlushAll {  } => CommandModel::FlushAll {  },
            Command::SetParent { key, parent } => CommandModel::SetParent {
                key: key@,
                parent: parent@,
            },
            Command::GetParent { key } => CommandModel::GetParent { key: key@ },
            Command::GetChildren { parent, depth } => CommandModel::GetChildren {
                parent: parent@,
                depth,
            },
            Command::GetInfo { key } => CommandModel::GetInfo { key: key@ },
        }
    }
}

/// What is known of one key.
#[derive(Debug, Clone)]
pub struct KeyInfo {
    pub key: String,
    /// Whether the key is stored with a valid entry.
    pub exists: bool,
    /// The seconds left, as `ttl` reports them.
    pub ttl: i64,
    /// The text of the value, where the key is stored with a valid entry.
    pub value: Option<String>,
    pub parent: Option<String>,
    /// The number of keys that name this key as their parent.
    pub children_count: usize,
}

/// The mathematical content of a [`KeyInfo`].
pub struct KeyInfoModel {
    pub key: Seq<char>,
    pub exists: bool,
    pub ttl: i64,
    pub value: Option<Seq<char>>,
    pub parent: Option<Seq<char>>,
    pub children_count: nat,
}

impl View for KeyInfo {
    type V = KeyInfoModel;

    open spec fn view(&self) -> KeyInfoModel {
        KeyInfoModel {
            key: self.key@,
            exists: self.exists,
            ttl: self.ttl,
            value: opt_text(self.value),
            parent: opt_text(self.parent),
            children_count: self.children_count as nat,
        }
    }
}

/// What the cache answers to a command.
#[derive(Debug, Clone)]
pub enum CommandResponse {
    Okay,
    Value(String),
    Integer(i64),
    Array(Vec<String>),
    ArrayWithDepth(Vec<(String, u64)>),
    KeyInfo(KeyInfo),
    Null,
    Error(String),
}

/// The mathematical content of a [`CommandResponse`].
pub enum ResponseModel {
    Okay,
    Value(Seq<char>),
    Integer(i64),
    Array(Seq<Seq<char>>),
    ArrayWithDepth(Seq<(Seq<char>, u64)>),
    KeyInfo(KeyInfoModel),
    Null,
    Error(Seq<char>),
}

impl View for CommandResponse {
    type V = ResponseModel;

    open spec fn view(&self) -> ResponseModel {
        match *self {
            CommandResponse::Okay => ResponseModel::Okay,
            CommandResponse::Value(s) => ResponseModel::Value(s@),
            CommandResponse::Integer(i) => ResponseModel::Integer(i),
            CommandResponse::Array(a) => ResponseModel::Array(texts_view(a@)),
            CommandResponse::ArrayWithDepth(a) => ResponseModel::ArrayWithDepth(pairs_view(a@)),
            CommandResponse::KeyInfo(k) => ResponseModel::KeyInfo(k@),
            CommandResponse::Null => ResponseModel::Null,
            CommandResponse::Error(e) => ResponseModel::Error(e@),
        }
    }
}

/// A count as an `i64`, or the largest `i64` where the count passes it.
pub open spec fn count_i64(n: nat) -> i64 {
    if n > i64::MAX {
        i64::MAX
    } else {
        n as i64
    }
}

/// A bound that a command gives, where it gives one that fits a `usize`; else `default`.
pub open spec fn bound_or(given: Option<u64>, default: usize) -> usize {
    match given {
        Some(b) => if b <= usize::MAX {
            b as usize
        } else {
            default
        },
        None => default,
    }
}

/// The text of an optional value.
pub open spec fn opt_value_text(v: Option<ValueModel>) -> Option<Seq<char>> {
    match v {
        Some(x) => Some(x.text()),
        None => None,
    }
}

/// Whether `response`, with the state `after`, answers `command` put at `now` to the state `before`.
pub open spec fn answers(
    before: CacheModel,
    config: Config,
    command: CommandModel,
    now: u128,
    after: CacheModel,
    response: ResponseModel,
) -> bool {
    match command {
        CommandModel::Get { key } => after == before.get_at(key, now).0 && response == match before.get_at(
            key,
            now,
        ).1 {
            Some(v) => ResponseModel::Value(v.text()),
            None => ResponseModel::Null,
        },
        CommandModel::SetValue { key, value, options } => {
            let done = before.set_at(config, key, ValueModel::String(value), options, now);
            after == done.0 && response == match done.1 {
                Ok(true) => ResponseModel::Okay,
                Ok(false) => ResponseModel::Null,
                Err(f) => ResponseModel::Error(f.message()),
            }
        },
        CommandModel::Del { keys } => after == before.del(keys).0 && response
            == ResponseModel::Integer(count_i64(before.del(keys).1)),
        CommandModel::Exists { keys } => after == before && response == ResponseModel::Integer(
            count_i64(count_valid(before.entries, keys, now)),
        ),
        CommandModel::Ping { message } => after == before && response == ResponseModel::Value(
            match message {
                Some(m) => m,
                None => "PONG"@,
            },
        ),
        CommandModel::Ttl { key } => after == before && response == ResponseModel::Integer(
            before.ttl_at(key, now),
        ),
        CommandModel::Expire { key, seconds } => after == before.expire_at(key, seconds, now).0
            && response == ResponseModel::Integer(before.expire_at(key, seconds, now).1),
        CommandModel::Persist { key } => after == before.persist(key).0 && response
            == ResponseModel::Integer(before.persist(key).1),
        CommandModel::SetParent { key, parent } => {
            let done = before.set_parent(config, key, parent);
            after == done.0 && response == match done.1 {
                Ok(i) => ResponseModel::Integer(i),
                Err(f) => ResponseModel::Error(f.message()),
            }
        },
        CommandModel::GetParent { key } => after == before && response == match parent_of(
            before.entries,
            key,
        ) {
            Some(p) => ResponseModel::Value(p),
            None => ResponseModel::Null,
        },
        CommandModel::GetChildren { parent, depth } => {
            &&& after == before
            &&& response matches ResponseModel::ArrayWithDepth(pairs)
            &&& before.lists_descendants(parent, bound_or(depth, 1), pairs)
        },
        CommandModel::ListKeys { pattern, limit } => {
            &&& after == before
            &&& response matches ResponseModel::Array(keys)
            &&& before.lists_matching(pattern, bound_or(limit, usize::MAX), keys)
        },
        CommandModel::GetInfo { key } => {
            let read = before.get_at(key, now);
            after == read.0 && response == ResponseModel::KeyInfo(
                KeyInfoModel {
                    key,
                    exists: key_valid(before.entries, key, now),
                    ttl: before.ttl_at(key, now),
                    value: opt_value_text(read.1),
                    parent: parent_of(read.0.entries, key),
                    children_count: read.0.children_of(key).len(),
                },
            )
        },
        CommandModel::FlushAll {  } => after == before.flushed() && response == ResponseModel::Okay,
    }
}

/// A count as an `i64`, or the largest `i64` where the count passes it.
pub fn count_as_i64(n: usize) -> (r: i64)
    ensures
        r == count_i64(n as nat),
{
    if n as u128 > i64::MAX as u128 {
        i64::MAX
    } else {
        n as i64
    }
}

/// A bound that a command gives, where it gives one that fits a `usize`; else `default`.
pub fn bound_or_default(given: Option<u64>, default: usize) -> (r: usize)
    ensures
        r == bound_or(given, default),
{
    match given {
        Some(b) => if b as u128 <= usize::MAX as u128 {
            b as usize
        } else {
            default
        },
        None => default,
    }
}

/// The texts of a vector as string slices.
pub fn as_strs(texts: &Vec<String>) -> (r: Vec<&str>)
    ensures
        strs_view(r@) == texts_view(texts@),
{
    let mut out: Vec<&str> = Vec::new();
    let mut i: usize = 0;
    while i < texts.len()
        invariant
            i <= texts.len(),
            out@.len() == i,
            forall|j: int| 0 <= j < i ==> out@[j]@ == texts@[j]@,
        decreases texts.len() - i,
    {
        out.push(texts[i].as_str());
        i = i + 1;
    }
    assert(strs_view(out@) =~= texts_view(texts@));
    out
}

/// Turns commands into calls of the cache and their results into responses.
pub struct CommandExecutor {
    pub cache: Cache,
}

impl CommandExecutor {
    /// An executor for `cache`.
    pub fn new(cache: Cache) -> (e: CommandExecutor)
        ensures
            e.cache == cache,
    {
        CommandExecutor { cache }
    }

    /// Carries out `cmd` at `now`.
    pub fn execute_at(&mut self, cmd: Command, now: u128) -> (response: CommandResponse)
        ensures
            answers(
                old(self).cache@,
                old(self).cache.settings(),
                cmd@,
                now,
                final(self).cache@,
                response@,
            ),
            final(self).cache.settings() == old(self).cache.settings(),
            final(self).cache.shards() == old(self).cache.shards(),
            final(self).cache.time() == old(self).cache.time(),
            old(self).cache@.well_formed() ==> final(self).cache@.well_formed(),
    {
        match cmd {
            Command::Get { key } => match self.cache.get_at(key.as_str(), now) {
                Some(value) => CommandResponse::Value(value.to_text()),
                None => CommandResponse::Null,
            },
            Command::SetValue { key, value, options } => match self.cache.set_at(
                key,
                Value::String(value),
                options,
                now,
            ) {
                Ok(true) => CommandResponse::Okay,
                Ok(false) => CommandResponse::Null,
                Err(e) => CommandResponse::Error(e.message()),
            },
            Command::Del { keys } => {
                let refs = as_strs(&keys);
                let deleted = self.cache.del(refs.as_slice());
                CommandResponse::Integer(count_as_i64(deleted))
            },
            Command::Exists { keys } => {
                let refs = as_strs(&keys);
                let count = self.cache.exists_multi_at(refs.as_slice(), now);
                CommandResponse::Integer(count_as_i64(count))
            },
            Command::Ping { message } => match message {
                Some(msg) => CommandResponse::Value(msg),
                None => CommandResponse::Value(owned("PONG")),
            },
            Command::Ttl { key } => CommandResponse::Integer(self.cache.ttl_at(key.as_str(), now)),
            Command::Expire { key, seconds } => CommandResponse::Integer(
                self.cache.expire_at(key.as_str(), seconds, now),
            ),
            Command::Persist { key } => CommandResponse::Integer(self.cache.persist(key.as_str())),
            Command::SetParent { key, parent } => match self.cache.set_parent(key.as_str(), parent) {
                Ok(i) => CommandResponse::Integer(i),
                Err(e) => CommandResponse::Error(e.message()),
            },
            Command::GetParent { key } => match self.cache.parent(key.as_str()) {
                Some(p) => CommandResponse::Value(p),
                None => CommandResponse::Null,
            },
            Command::GetChildren { parent, depth } => {
                let bound = bound_or_default(depth, 1);
                CommandResponse::ArrayWithDepth(
                    self.cache.children_recursive(parent.as_str(), bound),
                )
            },
            Command::ListKeys { pattern, limit } => {
                let bound = bound_or_default(limit, usize::MAX);
                CommandResponse::Array(self.cache.keys(pattern.as_str(), bound))
            },
            Command::GetInfo { key } => {
                let exists = self.cache.exists_at(key.as_str(), now);
                let ttl = self.cache.ttl_at(key.as_str(), now);
                let value = match self.cache.get_at(key.as_str(), now) {
                    Some(v) => Some(v.to_text()),
                    None => None,
                };
                let parent = self.cache.parent(key.as_str());
                let children = self.cache.children(key.as_str());
                proof {
                    texts_view(children@).unique_seq_to_set();
                }
                CommandResponse::KeyInfo(
                    KeyInfo { key, exists, ttl, value, parent, children_count: children.len() },
                )
            },
            Command::FlushAll {  } => {
                self.cache.flush_all();
                CommandResponse::Okay
            },
        }
    }

    /// Carries out `cmd` at the next reading of the cache's clock.
    pub fn execute(&mut self, cmd: Command) -> (response: CommandResponse)
        ensures
            final(self).cache.time() >= old(self).cache.time(),
            final(self).cache.settings() == old(self).cache.settings(),
            final(self).cache.shards() == old(self).cache.shards(),
            answers(
                old(self).cache@,
                old(self).cache.settings(),
                cmd@,
                final(self).cache.time(),
                final(self).cache@,
                response@,
            ),
            old(self).cache@.well_formed() ==> final(self).cache@.well_formed(),
    {
        let now = self.cache.now();
        self.execute_at(cmd, now)
    }
}

} // verus!
