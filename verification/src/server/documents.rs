//! The JSON documents the storage is saved in: users, teams and private
//! messages, written from the stored data and read back with their schema
//! checked.
use vstd::prelude::*;

use crate::json::{get_member, member, JsonIoError, JsonNumber, JsonValue};
use crate::server::storage::{
    ChannelEntry, ChannelRecord, MessageEntry, MessageRecord, ReplyEntry, ReplyRecord,
    ServerStorage, StorageView, TeamEntry, TeamRecord, TeamTree, ThreadEntry, ThreadRecord,
    UserEntry, UserRecord,
};
use crate::text::{chars_of, push_digits, push_str, string_of};

verus! {

/// Why the stored data could not be loaded or saved.
pub enum StorageError {
    /// A file could not be read or written; the system's message.
    Io(String),
    /// A file does not hold JSON.
    Json(JsonIoError),
    /// A document does not have the expected shape.
    Schema(String),
}

impl JsonIoError {
    /// The message describing the error.
    pub fn message(&self) -> (r: String)
        ensures
            match self {
                JsonIoError::Io(m) => r@ == "I/O error: "@ + m@,
                JsonIoError::Parse { message, position } => r@ == "JSON parse error at byte "@
                    + crate::text::digits_spec(*position as nat) + ": "@ + message@,
                JsonIoError::InvalidRootType(m) => r@ == "Invalid JSON root type: "@ + m@,
            },
    {
        let mut out: Vec<char> = Vec::new();
        match self {
            JsonIoError::Io(m) => {
                push_str(&mut out, "I/O error: ");
                push_str(&mut out, m.as_str());
            },
            JsonIoError::Parse { message, position } => {
                push_str(&mut out, "JSON parse error at byte ");
                push_digits(&mut out, *position as u64);
                push_str(&mut out, ": ");
                push_str(&mut out, message.as_str());
            },
            JsonIoError::InvalidRootType(m) => {
                push_str(&mut out, "Invalid JSON root type: ");
                push_str(&mut out, m.as_str());
            },
        }
        string_of(out.as_slice())
    }
}

impl StorageError {
    /// The message describing the error.
    pub fn message(&self) -> (r: String)
        ensures
            match self {
                StorageError::Io(m) => r@ == "storage I/O error: "@ + m@,
                StorageError::Json(e) => r@.len() >= "storage JSON error: "@.len()
                    && r@.subrange(0, "storage JSON error: "@.len() as int) == "storage JSON error: "@,
                StorageError::Schema(m) => r@ == "storage schema error: "@ + m@,
            },
    {
        let mut out: Vec<char> = Vec::new();
        match self {
            StorageError::Io(m) => {
                push_str(&mut out, "storage I/O error: ");
                push_str(&mut out, m.as_str());
            },
            StorageError::Json(e) => {
                push_str(&mut out, "storage JSON error: ");
                let inner = e.message();
                push_str(&mut out, inner.as_str());
                assert(out@.subrange(0, "storage JSON error: "@.len() as int) =~= "storage JSON error: "@);
            },
            StorageError::Schema(m) => {
                push_str(&mut out, "storage schema error: ");
                push_str(&mut out, m.as_str());
            },
        }
        string_of(out.as_slice())
    }
}

// ---------------------------------------------------------------------------
// Reading fields
// ---------------------------------------------------------------------------

/// `missing '<k>' field`.
pub open spec fn missing_msg(k: Seq<char>) -> Seq<char> {
    "missing '"@ + k + "' field"@
}

/// `field '<k>' is not a string`.
pub open spec fn not_string_msg(k: Seq<char>) -> Seq<char> {
    "field '"@ + k + "' is not a string"@
}

/// `field '<k>' is not an integer number`.
pub open spec fn not_integer_msg(k: Seq<char>) -> Seq<char> {
    "field '"@ + k + "' is not an integer number"@
}

/// `field '<k>' is out of i64 range`.
pub open spec fn out_of_range_msg(k: Seq<char>) -> Seq<char> {
    "field '"@ + k + "' is out of i64 range"@
}

/// `<ctx> is not an object`.
pub open spec fn not_object_msg(ctx: Seq<char>) -> Seq<char> {
    ctx + " is not an object"@
}

/// `<ctx> is not an array`.
pub open spec fn not_array_msg(ctx: Seq<char>) -> Seq<char> {
    ctx + " is not an array"@
}

/// A required string member.
pub open spec fn string_field(o: Seq<(String, JsonValue)>, k: Seq<char>) -> Result<Seq<char>, Seq<char>> {
    match member(o, k) {
        None => Err(missing_msg(k)),
        Some(JsonValue::String(s)) => Ok(s@),
        Some(_) => Err(not_string_msg(k)),
    }
}

/// An optional string member, empty when absent.
pub open spec fn string_field_or_default(o: Seq<(String, JsonValue)>, k: Seq<char>) -> Result<
    Seq<char>,
    Seq<char>,
> {
    match member(o, k) {
        None => Ok(Seq::empty()),
        Some(JsonValue::String(s)) => Ok(s@),
        Some(_) => Err(not_string_msg(k)),
    }
}

/// A required integer member.
pub open spec fn i64_field(o: Seq<(String, JsonValue)>, k: Seq<char>) -> Result<i64, Seq<char>> {
    match member(o, k) {
        None => Err(missing_msg(k)),
        Some(JsonValue::Number(JsonNumber::Integer(n))) => Ok(n),
        Some(JsonValue::Number(JsonNumber::OutOfRange)) => Err(out_of_range_msg(k)),
        Some(_) => Err(not_integer_msg(k)),
    }
}

/// An optional integer member, zero when absent.
pub open spec fn i64_field_or_default(o: Seq<(String, JsonValue)>, k: Seq<char>) -> Result<
    i64,
    Seq<char>,
> {
    match member(o, k) {
        None => Ok(0),
        Some(JsonValue::Number(JsonNumber::Integer(n))) => Ok(n),
        Some(JsonValue::Number(JsonNumber::OutOfRange)) => Err(out_of_range_msg(k)),
        Some(_) => Err(not_integer_msg(k)),
    }
}

/// `a + k + b` as a `String`.
fn framed(a: &str, k: &str, b: &str) -> (r: String)
    ensures
        r@ == a@ + k@ + b@,
{
    let mut out = chars_of(a);
    push_str(&mut out, k);
    push_str(&mut out, b);
    string_of(out.as_slice())
}

/// `k + b` as a `String`.
fn suffixed(k: &str, b: &str) -> (r: String)
    ensures
        r@ == k@ + b@,
{
    let mut out = chars_of(k);
    push_str(&mut out, b);
    string_of(out.as_slice())
}

/// A schema error.
fn schema(m: String) -> (r: StorageError)
    ensures
        r matches StorageError::Schema(x) && x@ == m@,
{
    StorageError::Schema(m)
}

/// Whether `r` is the schema error `m`, or holds what `ok` holds.
pub open spec fn schema_result<T, U>(r: Result<T, StorageError>, spec: Result<U, Seq<char>>, view: spec_fn(T) -> U) -> bool {
    match spec {
        Ok(u) => r matches Ok(t) && view(t) == u,
        Err(m) => r matches Err(StorageError::Schema(x)) && x@ == m,
    }
}

/// Read a required string member.
pub fn expect_string_field(obj: &Vec<(String, JsonValue)>, field: &str) -> (r: Result<String, StorageError>)
    ensures
        schema_result(r, string_field(obj@, field@), |s: String| s@),
{
    match get_member(obj, field) {
        None => Err(schema(framed("missing '", field, "' field"))),
        Some(JsonValue::String(s)) => Ok(s.clone()),
        Some(_) => Err(schema(framed("field '", field, "' is not a string"))),
    }
}

/// Read an optional string member, empty when absent.
pub fn expect_string_field_or_default(obj: &Vec<(String, JsonValue)>, field: &str) -> (r: Result<
    String,
    StorageError,
>)
    ensures
        schema_result(r, string_field_or_default(obj@, field@), |s: String| s@),
{
    match get_member(obj, field) {
        None => Ok(String::new()),
        Some(JsonValue::String(s)) => Ok(s.clone()),
        Some(_) => Err(schema(framed("field '", field, "' is not a string"))),
    }
}

/// Read a required integer member.
pub fn expect_i64_field(obj: &Vec<(String, JsonValue)>, field: &str) -> (r: Result<i64, StorageError>)
    ensures
        schema_result(r, i64_field(obj@, field@), |n: i64| n),
{
    match get_member(obj, field) {
        None => Err(schema(framed("missing '", field, "' field"))),
        Some(JsonValue::Number(JsonNumber::Integer(n))) => Ok(*n),
        Some(JsonValue::Number(JsonNumber::OutOfRange)) => Err(
            schema(framed("field '", field, "' is out of i64 range")),
        ),
        Some(_) => Err(schema(framed("field '", field, "' is not an integer number"))),
    }
}

/// Read an optional integer member, zero when absent.
pub fn expect_i64_field_or_default(obj: &Vec<(String, JsonValue)>, field: &str) -> (r: Result<
    i64,
    StorageError,
>)
    ensures
        schema_result(r, i64_field_or_default(obj@, field@), |n: i64| n),
{
    match get_member(obj, field) {
        None => Ok(0),
        Some(JsonValue::Number(JsonNumber::Integer(n))) => Ok(*n),
        Some(JsonValue::Number(JsonNumber::OutOfRange)) => Err(
            schema(framed("field '", field, "' is out of i64 range")),
        ),
        Some(_) => Err(schema(framed("field '", field, "' is not an integer number"))),
    }
}

/// The members of an object value.
pub fn expect_object<'a>(value: &'a JsonValue, ctx: &str) -> (r: Result<&'a Vec<(String, JsonValue)>, StorageError>)
    ensures
        match value {
            JsonValue::Object(o) => r matches Ok(x) && *x == o,
            _ => r matches Err(StorageError::Schema(m)) && m@ == not_object_msg(ctx@),
        },
{
    match value {
        JsonValue::Object(o) => Ok(o),
        _ => Err(schema(suffixed(ctx, " is not an object"))),
    }
}

/// The items of an array value.
pub fn expect_array<'a>(value: &'a JsonValue, ctx: &str) -> (r: Result<&'a Vec<JsonValue>, StorageError>)
    ensures
        match value {
            JsonValue::Array(a) => r matches Ok(x) && *x == a,
            _ => r matches Err(StorageError::Schema(m)) && m@ == not_array_msg(ctx@),
        },
{
    match value {
        JsonValue::Array(a) => Ok(a),
        _ => Err(schema(suffixed(ctx, " is not an array"))),
    }
}

/// Decodes each item in order, up to the first error.
pub open spec fn decode_all<T>(items: Seq<JsonValue>, f: spec_fn(JsonValue) -> Result<T, Seq<char>>) -> Result<
    Seq<T>,
    Seq<char>,
>
    decreases items.len(),
{
    if items.len() == 0 {
        Ok(Seq::empty())
    } else {
        match decode_all(items.drop_last(), f) {
            Err(e) => Err(e),
            Ok(xs) => match f(items.last()) {
                Err(e) => Err(e),
                Ok(x) => Ok(xs.push(x)),
            },
        }
    }
}

/// Once an item fails, the later ones change nothing.
pub proof fn lemma_decode_all_stop<T>(
    items: Seq<JsonValue>,
    f: spec_fn(JsonValue) -> Result<T, Seq<char>>,
    n: int,
)
    requires
        0 <= n <= items.len(),
        decode_all(items.subrange(0, n), f) is Err,
    ensures
        decode_all(items, f) == decode_all(items.subrange(0, n), f),
    decreases items.len() - n,
{
    if n < items.len() {
        assert(items.subrange(0, n + 1).drop_last() =~= items.subrange(0, n));
        lemma_decode_all_stop(items, f, n + 1);
    } else {
        assert(items.subrange(0, n) =~= items);
    }
}

/// When every item decodes, the items decode to the sequence of results.
pub proof fn lemma_decode_all_ok<T>(
    items: Seq<JsonValue>,
    f: spec_fn(JsonValue) -> Result<T, Seq<char>>,
    xs: Seq<T>,
)
    requires
        items.len() == xs.len(),
        forall|i: int| 0 <= i < items.len() ==> f(#[trigger] items[i]) == Ok::<T, Seq<char>>(xs[i]),
    ensures
        decode_all(items, f) == Ok::<Seq<T>, Seq<char>>(xs),
    decreases items.len(),
{
    if items.len() > 0 {
        let pi = items.drop_last();
        let px = xs.drop_last();
        assert forall|i: int| 0 <= i < pi.len() implies f(#[trigger] pi[i]) == Ok::<T, Seq<char>>(px[i]) by {
            assert(pi[i] == items[i]);
        }
        lemma_decode_all_ok(pi, f, px);
        assert(f(items[items.len() - 1]) == Ok::<T, Seq<char>>(xs[xs.len() - 1]));
        assert(px.push(xs.last()) =~= xs);
        assert(items.last() == items[items.len() - 1]);
        assert(decode_all(items, f) == Ok::<Seq<T>, Seq<char>>(px.push(xs.last())));
    } else {
        assert(xs =~= Seq::<T>::empty());
    }
}

// ---------------------------------------------------------------------------
// Users
// ---------------------------------------------------------------------------

/// A user item of the users document.
pub open spec fn user_item(v: JsonValue) -> Result<UserRecord, Seq<char>> {
    match v {
        JsonValue::Object(o) => match string_field(o@, "name"@) {
            Err(e) => Err(e),
            Ok(name) => match string_field(o@, "uuid"@) {
                Err(e) => Err(e),
                Ok(uuid) => Ok(UserRecord { name, uuid }),
            },
        },
        _ => Err(not_object_msg("users[] item"@)),
    }
}

/// The users of a users document.
pub open spec fn users_decode(v: JsonValue) -> Result<Seq<UserRecord>, Seq<char>> {
    match v {
        JsonValue::Object(o) => match member(o@, "users"@) {
            None => Err(missing_msg("users"@)),
            Some(JsonValue::Array(items)) => decode_all(items@, |x: JsonValue| user_item(x)),
            Some(_) => Err(not_array_msg("users"@)),
        },
        _ => Err(not_object_msg("users file root"@)),
    }
}

/// The views of user entries.
pub open spec fn user_records(v: Seq<UserEntry>) -> Seq<UserRecord> {
    v.map_values(|u: UserEntry| u@)
}

/// Read the users of a users document.
pub fn users_from_json_value(value: &JsonValue) -> (r: Result<Vec<UserEntry>, StorageError>)
    ensures
        schema_result(r, users_decode(*value), |v: Vec<UserEntry>| user_records(v@)),
{
    let root = expect_object(value, "users file root")?;
    let users_value = match get_member(root, "users") {
        Some(v) => v,
        None => {
            return Err(schema(framed("missing '", "users", "' field")));
        },
    };
    let items = expect_array(users_value, "users")?;
    let ghost f = |x: JsonValue| user_item(x);
    let mut out: Vec<UserEntry> = Vec::new();
    let mut i: usize = 0;
    assert(items@.subrange(0, 0) =~= Seq::<JsonValue>::empty());
    assert(user_records(out@) =~= Seq::<UserRecord>::empty());
    assert(users_decode(*value) == decode_all(items@, f));
    while i < items.len()
        invariant
            i <= items@.len(),
            users_decode(*value) == decode_all(items@, f),
            f == (|x: JsonValue| user_item(x)),
            decode_all(items@.subrange(0, i as int), f) == Ok::<Seq<UserRecord>, Seq<char>>(user_records(out@)),
        decreases items@.len() - i,
    {
        assert(items@.subrange(0, i + 1).drop_last() =~= items@.subrange(0, i as int));
        assert(f(items@[i as int]) == user_item(items@[i as int]));
        let obj = match expect_object(&items[i], "users[] item") {
            Ok(o) => o,
            Err(e) => {
                proof {
                    assert(decode_all(items@.subrange(0, i + 1), f) is Err);
                    lemma_decode_all_stop(items@, f, i + 1);
                }
                return Err(e);
            },
        };
        let name = match expect_string_field(obj, "name") {
            Ok(n) => n,
            Err(e) => {
                proof {
                    assert(decode_all(items@.subrange(0, i + 1), f) is Err);
                    lemma_decode_all_stop(items@, f, i + 1);
                }
                return Err(e);
            },
        };
        let uuid = match expect_string_field(obj, "uuid") {
            Ok(u) => u,
            Err(e) => {
                proof {
                    assert(decode_all(items@.subrange(0, i + 1), f) is Err);
                    lemma_decode_all_stop(items@, f, i + 1);
                }
                return Err(e);
            },
        };
        let ghost before = user_records(out@);
        out.push(UserEntry { name, uuid });
        i = i + 1;
        assert(user_records(out@) =~= before.push(UserRecord { name: name@, uuid: uuid@ }));
    }
    assert(items@.subrange(0, i as int) =~= items@);
    Ok(out)
}

/// Whether `v` is a string holding `s`.
pub open spec fn is_str(v: JsonValue, s: Seq<char>) -> bool {
    v matches JsonValue::String(x) && x@ == s
}

/// Whether `v` is the integer `n`.
pub open spec fn is_int(v: JsonValue, n: i64) -> bool {
    v matches JsonValue::Number(JsonNumber::Integer(m)) && m == n
}

/// Whether the members of `e` have exactly the keys `keys`, in order.
pub open spec fn keys_are(e: Seq<(String, JsonValue)>, keys: Seq<Seq<char>>) -> bool {
    &&& e.len() == keys.len()
    &&& forall|i: int| 0 <= i < e.len() ==> (#[trigger] e[i]).0@ == keys[i]
}

/// Whether `v` is the JSON object of user `u`.
pub open spec fn user_json(v: JsonValue, u: UserRecord) -> bool {
    &&& v matches JsonValue::Object(e)
    &&& keys_are(e@, seq!["name"@, "uuid"@])
    &&& is_str(e@[0].1, u.name)
    &&& is_str(e@[1].1, u.uuid)
}

/// Whether `v` is an object with the one member `key`, an array whose
/// items `item` describes.
pub open spec fn root_array(v: JsonValue, key: Seq<char>, n: nat, item: spec_fn(int, JsonValue) -> bool) -> bool {
    &&& v matches JsonValue::Object(e)
    &&& keys_are(e@, seq![key])
    &&& e@[0].1 matches JsonValue::Array(a)
    &&& a@.len() == n
    &&& forall|i: int| 0 <= i < n ==> #[trigger] item(i, a@[i])
}

/// Whether `v` is the users document of `users`.
pub open spec fn users_doc(v: JsonValue, users: Seq<UserRecord>) -> bool {
    root_array(v, "users"@, users.len(), |i: int, x: JsonValue| user_json(x, users[i]))
}

/// A string value.
fn jstr(s: &String) -> (r: JsonValue)
    ensures
        is_str(r, s@),
{
    JsonValue::String(s.clone())
}

/// A member.
fn jmember(k: &str, v: JsonValue) -> (r: (String, JsonValue))
    ensures
        r.0@ == k@,
        r.1 == v,
{
    (k.to_owned(), v)
}

/// An object with one array member.
fn root_object(key: &str, items: Vec<JsonValue>) -> (r: JsonValue)
    ensures
        r matches JsonValue::Object(e) && keys_are(e@, seq![key@]) && e@[0].1 == JsonValue::Array(items),
{
    let e = vec![jmember(key, JsonValue::Array(items))];
    assert(keys_are(e@, seq![key@]));
    JsonValue::Object(e)
}

/// The users document of `users`.
pub fn users_to_json_value(users: &[UserEntry]) -> (r: JsonValue)
    ensures
        users_doc(r, users@.map_values(|u: UserEntry| u@)),
{
    let ghost uv = users@.map_values(|u: UserEntry| u@);
    let mut arr: Vec<JsonValue> = Vec::new();
    let mut i: usize = 0;
    while i < users.len()
        invariant
            i <= users@.len(),
            uv == users@.map_values(|u: UserEntry| u@),
            arr@.len() == i,
            forall|j: int| 0 <= j < i ==> user_json(#[trigger] arr@[j], uv[j]),
        decreases users@.len() - i,
    {
        let u = &users[i];
        let e = vec![jmember("name", jstr(&u.name)), jmember("uuid", jstr(&u.uuid))];
        assert(keys_are(e@, seq!["name"@, "uuid"@]));
        arr.push(JsonValue::Object(e));
        i = i + 1;
    }
    root_object("users", arr)
}

/// A user object decodes to its user.
proof fn lemma_user_item(v: JsonValue, u: UserRecord)
    requires
        user_json(v, u),
    ensures
        user_item(v) == Ok::<UserRecord, Seq<char>>(u),
{
    reveal_strlit("name");
    reveal_strlit("uuid");
    let e = v->Object_0@;
    let keys = e.map_values(|m: (String, JsonValue)| m.0@);
    assert("name"@[0] != "uuid"@[0]);
    assert(keys[0] != "uuid"@);
    assert(keys[1] != "name"@);
    assert(crate::json::is_last_match(keys, "name"@, 0));
    assert(crate::json::is_last_match(keys, "uuid"@, 1));
    crate::json::lemma_last_match(keys, "name"@);
    crate::json::lemma_last_match(keys, "uuid"@);
}

/// Reading back what was written: the users document of some users holds
/// exactly those users.
pub proof fn lemma_users_round_trip(v: JsonValue, users: Seq<UserRecord>)
    requires
        users_doc(v, users),
    ensures
        users_decode(v) == Ok::<Seq<UserRecord>, Seq<char>>(users),
{
    reveal_strlit("users");
    let e = v->Object_0@;
    let keys = e.map_values(|m: (String, JsonValue)| m.0@);
    assert(crate::json::is_last_match(keys, "users"@, 0));
    crate::json::lemma_last_match(keys, "users"@);
    let items = e[0].1->Array_0@;
    let f = |x: JsonValue| user_item(x);
    assert forall|i: int| 0 <= i < items.len() implies f(#[trigger] items[i]) == Ok::<
        UserRecord,
        Seq<char>,
    >(users[i]) by {
        let item = |j: int, x: JsonValue| user_json(x, users[j]);
        assert(item(i, items[i]));
        lemma_user_item(items[i], users[i]);
    }
    lemma_decode_all_ok(items, f, users);
}

/// An integer value.
fn jint(n: i64) -> (r: JsonValue)
    ensures
        is_int(r, n),
{
    JsonValue::Number(JsonNumber::Integer(n))
}

/// Where no later key repeats `keys[i]`, member `keys[i]` is the `i`-th
/// value.
proof fn lemma_member_at(e: Seq<(String, JsonValue)>, keys: Seq<Seq<char>>, i: int)
    requires
        keys_are(e, keys),
        0 <= i < keys.len(),
        forall|j: int| i < j < keys.len() ==> keys[j] != keys[i],
    ensures
        member(e, keys[i]) == Some(e[i].1),
{
    let ks = e.map_values(|m: (String, JsonValue)| m.0@);
    assert(ks =~= keys);
    assert(crate::json::is_last_match(ks, keys[i], i));
    crate::json::lemma_last_match(ks, keys[i]);
}

// ---------------------------------------------------------------------------
// Messages
// ---------------------------------------------------------------------------

/// A message item of the messages document.
pub open spec fn message_item(v: JsonValue) -> Result<MessageRecord, Seq<char>> {
    match v {
        JsonValue::Object(o) => match string_field(o@, "sender_uuid"@) {
            Err(e) => Err(e),
            Ok(sender_uuid) => match string_field(o@, "recipient_uuid"@) {
                Err(e) => Err(e),
                Ok(recipient_uuid) => match i64_field(o@, "timestamp"@) {
                    Err(e) => Err(e),
                    Ok(timestamp) => match string_field(o@, "body"@) {
                        Err(e) => Err(e),
                        Ok(body) => Ok(MessageRecord { sender_uuid, recipient_uuid, timestamp, body }),
                    },
                },
            },
        },
        _ => Err(not_object_msg("messages[] item"@)),
    }
}

/// The messages of a messages document.
pub open spec fn messages_decode(v: JsonValue) -> Result<Seq<MessageRecord>, Seq<char>> {
    match v {
        JsonValue::Object(o) => match member(o@, "messages"@) {
            None => Err(missing_msg("messages"@)),
            Some(JsonValue::Array(items)) => decode_all(items@, |x: JsonValue| message_item(x)),
            Some(_) => Err(not_array_msg("messages"@)),
        },
        _ => Err(not_object_msg("messages file root"@)),
    }
}

/// Read one message item.
fn message_from_json(value: &JsonValue) -> (r: Result<MessageEntry, StorageError>)
    ensures
        schema_result(r, message_item(*value), |m: MessageEntry| m@),
{
    let obj = expect_object(value, "messages[] item")?;
    let sender_uuid = expect_string_field(obj, "sender_uuid")?;
    let recipient_uuid = expect_string_field(obj, "recipient_uuid")?;
    let timestamp = expect_i64_field(obj, "timestamp")?;
    let body = expect_string_field(obj, "body")?;
    Ok(MessageEntry { sender_uuid, recipient_uuid, timestamp, body })
}

/// Read the messages of a messages document.
pub fn messages_from_json_value(value: &JsonValue) -> (r: Result<Vec<MessageEntry>, StorageError>)
    ensures
        schema_result(r, messages_decode(*value), |v: Vec<MessageEntry>| v@.map_values(|m: MessageEntry| m@)),
{
    let root = expect_object(value, "messages file root")?;
    let messages_value = match get_member(root, "messages") {
        Some(v) => v,
        None => {
            return Err(schema(framed("missing '", "messages", "' field")));
        },
    };
    let items = expect_array(messages_value, "messages")?;
    let ghost f = |x: JsonValue| message_item(x);
    let mut out: Vec<MessageEntry> = Vec::new();
    let mut i: usize = 0;
    assert(items@.subrange(0, 0) =~= Seq::<JsonValue>::empty());
    assert(out@.map_values(|m: MessageEntry| m@) =~= Seq::<MessageRecord>::empty());
    assert(messages_decode(*value) == decode_all(items@, f));
    while i < items.len()
        invariant
            i <= items@.len(),
            messages_decode(*value) == decode_all(items@, f),
            f == (|x: JsonValue| message_item(x)),
            decode_all(items@.subrange(0, i as int), f) == Ok::<Seq<MessageRecord>, Seq<char>>(
                out@.map_values(|m: MessageEntry| m@),
            ),
        decreases items@.len() - i,
    {
        assert(items@.subrange(0, i + 1).drop_last() =~= items@.subrange(0, i as int));
        assert(f(items@[i as int]) == message_item(items@[i as int]));
        match message_from_json(&items[i]) {
            Ok(m) => {
                let ghost before = out@.map_values(|m: MessageEntry| m@);
                out.push(m);
                i = i + 1;
                assert(out@.map_values(|m: MessageEntry| m@) =~= before.push(m@));
            },
            Err(e) => {
                proof {
                    assert(decode_all(items@.subrange(0, i + 1), f) is Err);
                    lemma_decode_all_stop(items@, f, i + 1);
                }
                return Err(e);
            },
        }
    }
    assert(items@.subrange(0, i as int) =~= items@);
    Ok(out)
}

/// Whether `v` is the JSON object of message `m`.
pub open spec fn message_json(v: JsonValue, m: MessageRecord) -> bool {
    &&& v matches JsonValue::Object(e)
    &&& keys_are(e@, seq!["body"@, "recipient_uuid"@, "sender_uuid"@, "timestamp"@])
    &&& is_str(e@[0].1, m.body)
    &&& is_str(e@[1].1, m.recipient_uuid)
    &&& is_str(e@[2].1, m.sender_uuid)
    &&& is_int(e@[3].1, m.timestamp)
}

/// Whether `v` is the messages document of `messages`.
pub open spec fn messages_doc(v: JsonValue, messages: Seq<MessageRecord>) -> bool {
    root_array(v, "messages"@, messages.len(), |i: int, x: JsonValue| message_json(x, messages[i]))
}

/// The messages document of `messages`.
pub fn messages_to_json_value(messages: &[MessageEntry]) -> (r: JsonValue)
    ensures
        messages_doc(r, messages@.map_values(|m: MessageEntry| m@)),
{
    let ghost mv = messages@.map_values(|m: MessageEntry| m@);
    let mut arr: Vec<JsonValue> = Vec::new();
    let mut i: usize = 0;
    while i < messages.len()
        invariant
            i <= messages@.len(),
            mv == messages@.map_values(|m: MessageEntry| m@),
            arr@.len() == i,
            forall|j: int| 0 <= j < i ==> message_json(#[trigger] arr@[j], mv[j]),
        decreases messages@.len() - i,
    {
        let m = &messages[i];
        let e = vec![
            jmember("body", jstr(&m.body)),
            jmember("recipient_uuid", jstr(&m.recipient_uuid)),
            jmember("sender_uuid", jstr(&m.sender_uuid)),
            jmember("timestamp", jint(m.timestamp)),
        ];
        assert(keys_are(e@, seq!["body"@, "recipient_uuid"@, "sender_uuid"@, "timestamp"@]));
        arr.push(JsonValue::Object(e));
        i = i + 1;
    }
    root_object("messages", arr)
}

/// A message object decodes to its message.
proof fn lemma_message_item(v: JsonValue, m: MessageRecord)
    requires
        message_json(v, m),
    ensures
        message_item(v) == Ok::<MessageRecord, Seq<char>>(m),
{
    reveal_strlit("body");
    reveal_strlit("recipient_uuid");
    reveal_strlit("sender_uuid");
    reveal_strlit("timestamp");
    let e = v->Object_0@;
    let keys = seq!["body"@, "recipient_uuid"@, "sender_uuid"@, "timestamp"@];
    assert(keys[0][0] == 'b' && keys[1][0] == 'r' && keys[2][0] == 's' && keys[3][0] == 't');
    lemma_member_at(e, keys, 0);
    lemma_member_at(e, keys, 1);
    lemma_member_at(e, keys, 2);
    lemma_member_at(e, keys, 3);
}

/// Reading back what was written: the messages document of some messages
/// holds exactly those messages.
pub proof fn lemma_messages_round_trip(v: JsonValue, messages: Seq<MessageRecord>)
    requires
        messages_doc(v, messages),
    ensures
        messages_decode(v) == Ok::<Seq<MessageRecord>, Seq<char>>(messages),
{
    reveal_strlit("messages");
    let e = v->Object_0@;
    lemma_member_at(e, seq!["messages"@], 0);
    let items = e[0].1->Array_0@;
    let f = |x: JsonValue| message_item(x);
    assert forall|i: int| 0 <= i < items.len() implies f(#[trigger] items[i]) == Ok::<
        MessageRecord,
        Seq<char>,
    >(messages[i]) by {
        let item = |j: int, x: JsonValue| message_json(x, messages[j]);
        assert(item(i, items[i]));
        lemma_message_item(items[i], messages[i]);
    }
    lemma_decode_all_ok(items, f, messages);
}

// ---------------------------------------------------------------------------
// Teams
// ---------------------------------------------------------------------------

/// An array member decoded item by item; absent means empty unless
/// `required`.
pub open spec fn list_member<T>(
    o: Seq<(String, JsonValue)>,
    key: Seq<char>,
    f: spec_fn(JsonValue) -> Result<T, Seq<char>>,
    required: bool,
) -> Result<Seq<T>, Seq<char>> {
    match member(o, key) {
        None => if required {
            Err(missing_msg(key))
        } else {
            Ok(Seq::empty())
        },
        Some(JsonValue::Array(a)) => decode_all(a@, f),
        Some(_) => Err(not_array_msg(key)),
    }
}

/// A reply item.
pub open spec fn reply_item(v: JsonValue) -> Result<ReplyRecord, Seq<char>> {
    match v {
        JsonValue::Object(o) => match string_field(o@, "user_uuid"@) {
            Err(e) => Err(e),
            Ok(user_uuid) => match i64_field_or_default(o@, "timestamp"@) {
                Err(e) => Err(e),
                Ok(timestamp) => match string_field(o@, "body"@) {
                    Err(e) => Err(e),
                    Ok(body) => Ok(ReplyRecord { user_uuid, timestamp, body }),
                },
            },
        },
        _ => Err(not_object_msg("replies[] item"@)),
    }
}

/// A thread item.
pub open spec fn thread_item(v: JsonValue) -> Result<ThreadRecord, Seq<char>> {
    match v {
        JsonValue::Object(o) => match string_field(o@, "uuid"@) {
            Err(e) => Err(e),
            Ok(uuid) => match string_field_or_default(o@, "user_uuid"@) {
                Err(e) => Err(e),
                Ok(user_uuid) => match i64_field_or_default(o@, "timestamp"@) {
                    Err(e) => Err(e),
                    Ok(timestamp) => match string_field(o@, "title"@) {
                        Err(e) => Err(e),
                        Ok(title) => match string_field(o@, "body"@) {
                            Err(e) => Err(e),
                            Ok(body) => match list_member(
                                o@,
                                "replies"@,
                                |x: JsonValue| reply_item(x),
                                false,
                            ) {
                                Err(e) => Err(e),
                                Ok(replies) => Ok(
                                    ThreadRecord { uuid, user_uuid, timestamp, title, body, replies },
                                ),
                            },
                        },
                    },
                },
            },
        },
        _ => Err(not_object_msg("threads[] item"@)),
    }
}

/// A channel item.
pub open spec fn channel_item(v: JsonValue) -> Result<ChannelRecord, Seq<char>> {
    match v {
        JsonValue::Object(o) => match string_field(o@, "uuid"@) {
            Err(e) => Err(e),
            Ok(uuid) => match string_field(o@, "name"@) {
                Err(e) => Err(e),
                Ok(name) => match string_field_or_default(o@, "description"@) {
                    Err(e) => Err(e),
                    Ok(description) => match list_member(
                        o@,
                        "threads"@,
                        |x: JsonValue| thread_item(x),
                        true,
                    ) {
                        Err(e) => Err(e),
                        Ok(threads) => Ok(ChannelRecord { uuid, name, description, threads }),
                    },
                },
            },
        },
        _ => Err(not_object_msg("channels[] item"@)),
    }
}

/// A team item.
pub open spec fn team_item(v: JsonValue) -> Result<TeamRecord, Seq<char>> {
    match v {
        JsonValue::Object(o) => match string_field(o@, "uuid"@) {
            Err(e) => Err(e),
            Ok(uuid) => match string_field(o@, "name"@) {
                Err(e) => Err(e),
                Ok(name) => match string_field_or_default(o@, "description"@) {
                    Err(e) => Err(e),
                    Ok(description) => match list_member(
                        o@,
                        "channels"@,
                        |x: JsonValue| channel_item(x),
                        true,
                    ) {
                        Err(e) => Err(e),
                        Ok(channels) => Ok(TeamRecord { uuid, name, description, channels }),
                    },
                },
            },
        },
        _ => Err(not_object_msg("teams[] item"@)),
    }
}

/// The teams of a teams document.
pub open spec fn teams_decode(v: JsonValue) -> Result<Seq<TeamRecord>, Seq<char>> {
    match v {
        JsonValue::Object(o) => list_member(o@, "teams"@, |x: JsonValue| team_item(x), true),
        _ => Err(not_object_msg("teams file root"@)),
    }
}

/// Read one reply item.
fn reply_from_json(value: &JsonValue) -> (r: Result<ReplyEntry, StorageError>)
    ensures
        schema_result(r, reply_item(*value), |x: ReplyEntry| x@),
{
    let obj = expect_object(value, "replies[] item")?;
    let user_uuid = expect_string_field(obj, "user_uuid")?;
    let timestamp = expect_i64_field_or_default(obj, "timestamp")?;
    let body = expect_string_field(obj, "body")?;
    Ok(ReplyEntry { user_uuid, timestamp, body })
}

/// Read the replies of a thread object.
fn replies_from_json(obj: &Vec<(String, JsonValue)>) -> (r: Result<Vec<ReplyEntry>, StorageError>)
    ensures
        schema_result(
            r,
            list_member(obj@, "replies"@, |x: JsonValue| reply_item(x), false),
            |v: Vec<ReplyEntry>| v@.map_values(|x: ReplyEntry| x@),
        ),
{
    let value = match get_member(obj, "replies") {
        Some(v) => v,
        None => {
            let out: Vec<ReplyEntry> = Vec::new();
            assert(out@.map_values(|x: ReplyEntry| x@) =~= Seq::<ReplyRecord>::empty());
            return Ok(out);
        },
    };
    let items = expect_array(value, "replies")?;
    let ghost f = |x: JsonValue| reply_item(x);
    let mut out: Vec<ReplyEntry> = Vec::new();
    let mut i: usize = 0;
    assert(items@.subrange(0, 0) =~= Seq::<JsonValue>::empty());
    assert(out@.map_values(|x: ReplyEntry| x@) =~= Seq::<ReplyRecord>::empty());
    assert(list_member(obj@, "replies"@, f, false) == decode_all(items@, f));
    while i < items.len()
        invariant
            i <= items@.len(),
            list_member(obj@, "replies"@, f, false) == decode_all(items@, f),
            f == (|x: JsonValue| reply_item(x)),
            decode_all(items@.subrange(0, i as int), f) == Ok::<Seq<ReplyRecord>, Seq<char>>(
                out@.map_values(|x: ReplyEntry| x@),
            ),
        decreases items@.len() - i,
    {
        assert(items@.subrange(0, i + 1).drop_last() =~= items@.subrange(0, i as int));
        assert(f(items@[i as int]) == reply_item(items@[i as int]));
        match reply_from_json(&items[i]) {
            Ok(x) => {
                let ghost before = out@.map_values(|x: ReplyEntry| x@);
                out.push(x);
                i = i + 1;
                assert(out@.map_values(|x: ReplyEntry| x@) =~= before.push(x@));
            },
            Err(e) => {
                proof {
                    assert(decode_all(items@.subrange(0, i + 1), f) is Err);
                    lemma_decode_all_stop(items@, f, i + 1);
                }
                return Err(e);
            },
        }
    }
    assert(items@.subrange(0, i as int) =~= items@);
    Ok(out)
}

/// Read one thread item.
fn thread_from_json(value: &JsonValue) -> (r: Result<ThreadEntry, StorageError>)
    ensures
        schema_result(r, thread_item(*value), |x: ThreadEntry| x@),
{
    let obj = expect_object(value, "threads[] item")?;
    let uuid = expect_string_field(obj, "uuid")?;
    let user_uuid = expect_string_field_or_default(obj, "user_uuid")?;
    let timestamp = expect_i64_field_or_default(obj, "timestamp")?;
    let title = expect_string_field(obj, "title")?;
    let body = expect_string_field(obj, "body")?;
    let replies = replies_from_json(obj)?;
    Ok(ThreadEntry { uuid, user_uuid, timestamp, title, body, replies })
}

/// Read the threads of a channel object.
fn threads_from_json(obj: &Vec<(String, JsonValue)>) -> (r: Result<Vec<ThreadEntry>, StorageError>)
    ensures
        schema_result(
            r,
            list_member(obj@, "threads"@, |x: JsonValue| thread_item(x), true),
            |v: Vec<ThreadEntry>| v@.map_values(|x: ThreadEntry| x@),
        ),
{
    let value = match get_member(obj, "threads") {
        Some(v) => v,
        None => {
            return Err(schema(framed("missing '", "threads", "' field")));
        },
    };
    let items = expect_array(value, "threads")?;
    let ghost f = |x: JsonValue| thread_item(x);
    let mut out: Vec<ThreadEntry> = Vec::new();
    let mut i: usize = 0;
    assert(items@.subrange(0, 0) =~= Seq::<JsonValue>::empty());
    assert(out@.map_values(|x: ThreadEntry| x@) =~= Seq::<ThreadRecord>::empty());
    assert(list_member(obj@, "threads"@, f, true) == decode_all(items@, f));
    while i < items.len()
        invariant
            i <= items@.len(),
            list_member(obj@, "threads"@, f, true) == decode_all(items@, f),
            f == (|x: JsonValue| thread_item(x)),
            decode_all(items@.subrange(0, i as int), f) == Ok::<Seq<ThreadRecord>, Seq<char>>(
                out@.map_values(|x: ThreadEntry| x@),
            ),
        decreases items@.len() - i,
    {
        assert(items@.subrange(0, i + 1).drop_last() =~= items@.subrange(0, i as int));
        assert(f(items@[i as int]) == thread_item(items@[i as int]));
        match thread_from_json(&items[i]) {
            Ok(x) => {
                let ghost before = out@.map_values(|x: ThreadEntry| x@);
                out.push(x);
                i = i + 1;
                assert(out@.map_values(|x: ThreadEntry| x@) =~= before.push(x@));
            },
            Err(e) => {
                proof {
                    assert(decode_all(items@.subrange(0, i + 1), f) is Err);
                    lemma_decode_all_stop(items@, f, i + 1);
                }
                return Err(e);
            },
        }
    }
    assert(items@.subrange(0, i as int) =~= items@);
    Ok(out)
}

/// Read one channel item.
fn channel_from_json(value: &JsonValue) -> (r: Result<ChannelEntry, StorageError>)
    ensures
        schema_result(r, channel_item(*value), |x: ChannelEntry| x@),
{
    let obj = expect_object(value, "channels[] item")?;
    let uuid = expect_string_field(obj, "uuid")?;
    let name = expect_string_field(obj, "name")?;
    let description = expect_string_field_or_default(obj, "description")?;
    let threads = threads_from_json(obj)?;
    Ok(ChannelEntry { uuid, name, description, threads })
}

/// Read the channels of a team object.
fn channels_from_json(obj: &Vec<(String, JsonValue)>) -> (r: Result<Vec<ChannelEntry>, StorageError>)
    ensures
        schema_result(
            r,
            list_member(obj@, "channels"@, |x: JsonValue| channel_item(x), true),
            |v: Vec<ChannelEntry>| v@.map_values(|x: ChannelEntry| x@),
        ),
{
    let value = match get_member(obj, "channels") {
        Some(v) => v,
        None => {
            return Err(schema(framed("missing '", "channels", "' field")));
        },
    };
    let items = expect_array(value, "channels")?;
    let ghost f = |x: JsonValue| channel_item(x);
    let mut out: Vec<ChannelEntry> = Vec::new();
    let mut i: usize = 0;
    assert(items@.subrange(0, 0) =~= Seq::<JsonValue>::empty());
    assert(out@.map_values(|x: ChannelEntry| x@) =~= Seq::<ChannelRecord>::empty());
    assert(list_member(obj@, "channels"@, f, true) == decode_all(items@, f));
    while i < items.len()
        invariant
            i <= items@.len(),
            list_member(obj@, "channels"@, f, true) == decode_all(items@, f),
            f == (|x: JsonValue| channel_item(x)),
            decode_all(items@.subrange(0, i as int), f) == Ok::<Seq<ChannelRecord>, Seq<char>>(
                out@.map_values(|x: ChannelEntry| x@),
            ),
        decreases items@.len() - i,
    {
        assert(items@.subrange(0, i + 1).drop_last() =~= items@.subrange(0, i as int));
        assert(f(items@[i as int]) == channel_item(items@[i as int]));
        match channel_from_json(&items[i]) {
            Ok(x) => {
                let ghost before = out@.map_values(|x: ChannelEntry| x@);
                out.push(x);
                i = i + 1;
                assert(out@.map_values(|x: ChannelEntry| x@) =~= before.push(x@));
            },
            Err(e) => {
                proof {
                    assert(decode_all(items@.subrange(0, i + 1), f) is Err);
                    lemma_decode_all_stop(items@, f, i + 1);
                }
                return Err(e);
            },
        }
    }
    assert(items@.subrange(0, i as int) =~= items@);
    Ok(out)
}

/// Read one team item.
fn team_from_json(value: &JsonValue) -> (r: Result<TeamEntry, StorageError>)
    ensures
        schema_result(r, team_item(*value), |x: TeamEntry| x@),
{
    let obj = expect_object(value, "teams[] item")?;
    let uuid = expect_string_field(obj, "uuid")?;
    let name = expect_string_field(obj, "name")?;
    let description = expect_string_field_or_default(obj, "description")?;
    let channels = channels_from_json(obj)?;
    Ok(TeamEntry { uuid, name, description, channels })
}

/// Read the team tree of a teams document.
pub fn teams_from_json_value(value: &JsonValue) -> (r: Result<TeamTree, StorageError>)
    ensures
        schema_result(r, teams_decode(*value), |t: TeamTree| t@),
{
    let root = expect_object(value, "teams file root")?;
    let teams_value = match get_member(root, "teams") {
        Some(v) => v,
        None => {
            return Err(schema(framed("missing '", "teams", "' field")));
        },
    };
    let items = expect_array(teams_value, "teams")?;
    let ghost f = |x: JsonValue| team_item(x);
    let mut out: Vec<TeamEntry> = Vec::new();
    let mut i: usize = 0;
    assert(items@.subrange(0, 0) =~= Seq::<JsonValue>::empty());
    assert(out@.map_values(|x: TeamEntry| x@) =~= Seq::<TeamRecord>::empty());
    assert(teams_decode(*value) == decode_all(items@, f));
    while i < items.len()
        invariant
            i <= items@.len(),
            teams_decode(*value) == decode_all(items@, f),
            f == (|x: JsonValue| team_item(x)),
            decode_all(items@.subrange(0, i as int), f) == Ok::<Seq<TeamRecord>, Seq<char>>(
                out@.map_values(|x: TeamEntry| x@),
            ),
        decreases items@.len() - i,
    {
        assert(items@.subrange(0, i + 1).drop_last() =~= items@.subrange(0, i as int));
        assert(f(items@[i as int]) == team_item(items@[i as int]));
        match team_from_json(&items[i]) {
            Ok(x) => {
                let ghost before = out@.map_values(|x: TeamEntry| x@);
                out.push(x);
                i = i + 1;
                assert(out@.map_values(|x: TeamEntry| x@) =~= before.push(x@));
            },
            Err(e) => {
                proof {
                    assert(decode_all(items@.subrange(0, i + 1), f) is Err);
                    lemma_decode_all_stop(items@, f, i + 1);
                }
                return Err(e);
            },
        }
    }
    assert(items@.subrange(0, i as int) =~= items@);
    Ok(TeamTree { teams: out })
}

/// Whether `v` is an array whose items `item` describes.
pub open spec fn array_of(v: JsonValue, n: nat, item: spec_fn(int, JsonValue) -> bool) -> bool {
    &&& v matches JsonValue::Array(a)
    &&& a@.len() == n
    &&& forall|i: int| 0 <= i < n ==> #[trigger] item(i, a@[i])
}

/// Whether `v` is the JSON object of reply `r`.
pub open spec fn reply_json(v: JsonValue, r: ReplyRecord) -> bool {
    &&& v matches JsonValue::Object(e)
    &&& keys_are(e@, seq!["body"@, "timestamp"@, "user_uuid"@])
    &&& is_str(e@[0].1, r.body)
    &&& is_int(e@[1].1, r.timestamp)
    &&& is_str(e@[2].1, r.user_uuid)
}

/// Whether `v` is the JSON object of thread `t`.
pub open spec fn thread_json(v: JsonValue, t: ThreadRecord) -> bool {
    &&& v matches JsonValue::Object(e)
    &&& keys_are(e@, seq!["body"@, "replies"@, "timestamp"@, "title"@, "user_uuid"@, "uuid"@])
    &&& is_str(e@[0].1, t.body)
    &&& array_of(e@[1].1, t.replies.len(), |i: int, x: JsonValue| reply_json(x, t.replies[i]))
    &&& is_int(e@[2].1, t.timestamp)
    &&& is_str(e@[3].1, t.title)
    &&& is_str(e@[4].1, t.user_uuid)
    &&& is_str(e@[5].1, t.uuid)
}

/// Whether `v` is the JSON object of channel `c`.
pub open spec fn channel_json(v: JsonValue, c: ChannelRecord) -> bool {
    &&& v matches JsonValue::Object(e)
    &&& keys_are(e@, seq!["description"@, "name"@, "threads"@, "uuid"@])
    &&& is_str(e@[0].1, c.description)
    &&& is_str(e@[1].1, c.name)
    &&& array_of(e@[2].1, c.threads.len(), |i: int, x: JsonValue| thread_json(x, c.threads[i]))
    &&& is_str(e@[3].1, c.uuid)
}

/// Whether `v` is the JSON object of team `t`.
pub open spec fn team_json(v: JsonValue, t: TeamRecord) -> bool {
    &&& v matches JsonValue::Object(e)
    &&& keys_are(e@, seq!["channels"@, "description"@, "name"@, "uuid"@])
    &&& array_of(e@[0].1, t.channels.len(), |i: int, x: JsonValue| channel_json(x, t.channels[i]))
    &&& is_str(e@[1].1, t.description)
    &&& is_str(e@[2].1, t.name)
    &&& is_str(e@[3].1, t.uuid)
}

/// Whether `v` is the teams document of `teams`.
pub open spec fn teams_doc(v: JsonValue, teams: Seq<TeamRecord>) -> bool {
    root_array(v, "teams"@, teams.len(), |i: int, x: JsonValue| team_json(x, teams[i]))
}

/// The JSON object of a reply.
fn reply_to_json(r: &ReplyEntry) -> (v: JsonValue)
    ensures
        reply_json(v, r@),
{
    let e = vec![
        jmember("body", jstr(&r.body)),
        jmember("timestamp", jint(r.timestamp)),
        jmember("user_uuid", jstr(&r.user_uuid)),
    ];
    assert(keys_are(e@, seq!["body"@, "timestamp"@, "user_uuid"@]));
    JsonValue::Object(e)
}

/// The JSON object of a thread.
fn thread_to_json(t: &ThreadEntry) -> (v: JsonValue)
    ensures
        thread_json(v, t@),
{
    let ghost rv = t@.replies;
    let mut arr: Vec<JsonValue> = Vec::new();
    let mut i: usize = 0;
    while i < t.replies.len()
        invariant
            i <= t.replies@.len(),
            rv == t.replies@.map_values(|r: ReplyEntry| r@),
            arr@.len() == i,
            forall|j: int| 0 <= j < i ==> reply_json(#[trigger] arr@[j], rv[j]),
        decreases t.replies@.len() - i,
    {
        arr.push(reply_to_json(&t.replies[i]));
        i = i + 1;
    }
    let replies = JsonValue::Array(arr);
    assert(array_of(replies, rv.len(), |i: int, x: JsonValue| reply_json(x, rv[i])));
    let e = vec![
        jmember("body", jstr(&t.body)),
        jmember("replies", replies),
        jmember("timestamp", jint(t.timestamp)),
        jmember("title", jstr(&t.title)),
        jmember("user_uuid", jstr(&t.user_uuid)),
        jmember("uuid", jstr(&t.uuid)),
    ];
    assert(keys_are(e@, seq!["body"@, "replies"@, "timestamp"@, "title"@, "user_uuid"@, "uuid"@]));
    JsonValue::Object(e)
}

/// The JSON object of a channel.
fn channel_to_json(c: &ChannelEntry) -> (v: JsonValue)
    ensures
        channel_json(v, c@),
{
    let ghost tv = c@.threads;
    let mut arr: Vec<JsonValue> = Vec::new();
    let mut i: usize = 0;
    while i < c.threads.len()
        invariant
            i <= c.threads@.len(),
            tv == c.threads@.map_values(|t: ThreadEntry| t@),
            arr@.len() == i,
            forall|j: int| 0 <= j < i ==> thread_json(#[trigger] arr@[j], tv[j]),
        decreases c.threads@.len() - i,
    {
        arr.push(thread_to_json(&c.threads[i]));
        i = i + 1;
    }
    let threads = JsonValue::Array(arr);
    assert(array_of(threads, tv.len(), |i: int, x: JsonValue| thread_json(x, tv[i])));
    let e = vec![
        jmember("description", jstr(&c.description)),
        jmember("name", jstr(&c.name)),
        jmember("threads", threads),
        jmember("uuid", jstr(&c.uuid)),
    ];
    assert(keys_are(e@, seq!["description"@, "name"@, "threads"@, "uuid"@]));
    JsonValue::Object(e)
}

/// The JSON object of a team.
fn team_to_json(t: &TeamEntry) -> (v: JsonValue)
    ensures
        team_json(v, t@),
{
    let ghost cv = t@.channels;
    let mut arr: Vec<JsonValue> = Vec::new();
    let mut i: usize = 0;
    while i < t.channels.len()
        invariant
            i <= t.channels@.len(),
            cv == t.channels@.map_values(|c: ChannelEntry| c@),
            arr@.len() == i,
            forall|j: int| 0 <= j < i ==> channel_json(#[trigger] arr@[j], cv[j]),
        decreases t.channels@.len() - i,
    {
        arr.push(channel_to_json(&t.channels[i]));
        i = i + 1;
    }
    let channels = JsonValue::Array(arr);
    assert(array_of(channels, cv.len(), |i: int, x: JsonValue| channel_json(x, cv[i])));
    let e = vec![
        jmember("channels", channels),
        jmember("description", jstr(&t.description)),
        jmember("name", jstr(&t.name)),
        jmember("uuid", jstr(&t.uuid)),
    ];
    assert(keys_are(e@, seq!["channels"@, "description"@, "name"@, "uuid"@]));
    JsonValue::Object(e)
}

/// The teams document of a team tree.
pub fn teams_to_json_value(tree: &TeamTree) -> (r: JsonValue)
    ensures
        teams_doc(r, tree@),
{
    let ghost tv = tree@;
    let mut arr: Vec<JsonValue> = Vec::new();
    let mut i: usize = 0;
    while i < tree.teams.len()
        invariant
            i <= tree.teams@.len(),
            tv == tree@,
            arr@.len() == i,
            forall|j: int| 0 <= j < i ==> team_json(#[trigger] arr@[j], tv[j]),
        decreases tree.teams@.len() - i,
    {
        arr.push(team_to_json(&tree.teams[i]));
        i = i + 1;
    }
    root_object("teams", arr)
}

/// A reply object decodes to its reply.
proof fn lemma_reply_item(v: JsonValue, r: ReplyRecord)
    requires
        reply_json(v, r),
    ensures
        reply_item(v) == Ok::<ReplyRecord, Seq<char>>(r),
{
    reveal_strlit("body");
    reveal_strlit("timestamp");
    reveal_strlit("user_uuid");
    let e = v->Object_0@;
    let keys = seq!["body"@, "timestamp"@, "user_uuid"@];
    assert(keys[0][0] == 'b' && keys[1][0] == 't' && keys[2][0] == 'u');
    lemma_member_at(e, keys, 0);
    lemma_member_at(e, keys, 1);
    lemma_member_at(e, keys, 2);
}

/// An array of objects describing `xs` decodes to `xs`.
proof fn lemma_array_decodes<T>(
    v: JsonValue,
    xs: Seq<T>,
    item: spec_fn(int, JsonValue) -> bool,
    f: spec_fn(JsonValue) -> Result<T, Seq<char>>,
)
    requires
        array_of(v, xs.len(), item),
        forall|i: int, x: JsonValue| 0 <= i < xs.len() && #[trigger] item(i, x) ==> f(x) == Ok::<T, Seq<char>>(xs[i]),
    ensures
        decode_all(v->Array_0@, f) == Ok::<Seq<T>, Seq<char>>(xs),
{
    let a = v->Array_0@;
    assert forall|i: int| 0 <= i < a.len() implies f(#[trigger] a[i]) == Ok::<T, Seq<char>>(xs[i]) by {
        assert(item(i, a[i]));
    }
    lemma_decode_all_ok(a, f, xs);
}

/// A thread object decodes to its thread.
proof fn lemma_thread_item(v: JsonValue, t: ThreadRecord)
    requires
        thread_json(v, t),
    ensures
        thread_item(v) == Ok::<ThreadRecord, Seq<char>>(t),
{
    reveal_strlit("body");
    reveal_strlit("replies");
    reveal_strlit("timestamp");
    reveal_strlit("title");
    reveal_strlit("user_uuid");
    reveal_strlit("uuid");
    let e = v->Object_0@;
    let keys = seq!["body"@, "replies"@, "timestamp"@, "title"@, "user_uuid"@, "uuid"@];
    assert(keys[0][0] == 'b' && keys[1][0] == 'r' && keys[2][0] == 't' && keys[3][0] == 't');
    assert(keys[2][2] == 'm' && keys[3][2] == 't');
    assert(keys[4][0] == 'u' && keys[5][0] == 'u' && keys[4][1] == 's' && keys[5][1] == 'u');
    lemma_member_at(e, keys, 0);
    lemma_member_at(e, keys, 1);
    lemma_member_at(e, keys, 2);
    lemma_member_at(e, keys, 3);
    lemma_member_at(e, keys, 4);
    lemma_member_at(e, keys, 5);
    let item = |i: int, x: JsonValue| reply_json(x, t.replies[i]);
    let f = |x: JsonValue| reply_item(x);
    assert forall|i: int, x: JsonValue| 0 <= i < t.replies.len() && #[trigger] item(i, x) implies f(
        x,
    ) == Ok::<ReplyRecord, Seq<char>>(t.replies[i]) by {
        lemma_reply_item(x, t.replies[i]);
    }
    lemma_array_decodes(e[1].1, t.replies, item, f);
}

/// A channel object decodes to its channel.
proof fn lemma_channel_item(v: JsonValue, c: ChannelRecord)
    requires
        channel_json(v, c),
    ensures
        channel_item(v) == Ok::<ChannelRecord, Seq<char>>(c),
{
    reveal_strlit("description");
    reveal_strlit("name");
    reveal_strlit("threads");
    reveal_strlit("uuid");
    let e = v->Object_0@;
    let keys = seq!["description"@, "name"@, "threads"@, "uuid"@];
    assert(keys[0][0] == 'd' && keys[1][0] == 'n' && keys[2][0] == 't' && keys[3][0] == 'u');
    lemma_member_at(e, keys, 0);
    lemma_member_at(e, keys, 1);
    lemma_member_at(e, keys, 2);
    lemma_member_at(e, keys, 3);
    let item = |i: int, x: JsonValue| thread_json(x, c.threads[i]);
    let f = |x: JsonValue| thread_item(x);
    assert forall|i: int, x: JsonValue| 0 <= i < c.threads.len() && #[trigger] item(i, x) implies f(
        x,
    ) == Ok::<ThreadRecord, Seq<char>>(c.threads[i]) by {
        lemma_thread_item(x, c.threads[i]);
    }
    lemma_array_decodes(e[2].1, c.threads, item, f);
}

/// A team object decodes to its team.
proof fn lemma_team_item(v: JsonValue, t: TeamRecord)
    requires
        team_json(v, t),
    ensures
        team_item(v) == Ok::<TeamRecord, Seq<char>>(t),
{
    reveal_strlit("channels");
    reveal_strlit("description");
    reveal_strlit("name");
    reveal_strlit("uuid");
    let e = v->Object_0@;
    let keys = seq!["channels"@, "description"@, "name"@, "uuid"@];
    assert(keys[0][0] == 'c' && keys[1][0] == 'd' && keys[2][0] == 'n' && keys[3][0] == 'u');
    lemma_member_at(e, keys, 0);
    lemma_member_at(e, keys, 1);
    lemma_member_at(e, keys, 2);
    lemma_member_at(e, keys, 3);
    let item = |i: int, x: JsonValue| channel_json(x, t.channels[i]);
    let f = |x: JsonValue| channel_item(x);
    assert forall|i: int, x: JsonValue| 0 <= i < t.channels.len() && #[trigger] item(i, x) implies f(
        x,
    ) == Ok::<ChannelRecord, Seq<char>>(t.channels[i]) by {
        lemma_channel_item(x, t.channels[i]);
    }
    lemma_array_decodes(e[0].1, t.channels, item, f);
}

/// Reading back what was written: the teams document of some teams holds
/// exactly those teams, with their channels, threads and replies.
pub proof fn lemma_teams_round_trip(v: JsonValue, teams: Seq<TeamRecord>)
    requires
        teams_doc(v, teams),
    ensures
        teams_decode(v) == Ok::<Seq<TeamRecord>, Seq<char>>(teams),
{
    reveal_strlit("teams");
    let e = v->Object_0@;
    lemma_member_at(e, seq!["teams"@], 0);
    let item = |i: int, x: JsonValue| team_json(x, teams[i]);
    let f = |x: JsonValue| team_item(x);
    assert forall|i: int, x: JsonValue| 0 <= i < teams.len() && #[trigger] item(i, x) implies f(x)
        == Ok::<TeamRecord, Seq<char>>(teams[i]) by {
        lemma_team_item(x, teams[i]);
    }
    lemma_array_decodes(e[0].1, teams, item, f);
}

// ---------------------------------------------------------------------------
// Loading and saving
// ---------------------------------------------------------------------------

/// Why loading failed.
pub enum LoadFailure {
    /// A file could not be read or does not hold JSON.
    Json(JsonIoError),
    /// A document does not have the expected shape.
    Schema(Seq<char>),
}

/// The content of a file as read: absent, unreadable, or a document.
pub open spec fn decoded<T>(
    file: Option<Result<JsonValue, JsonIoError>>,
    decode: spec_fn(JsonValue) -> Result<Seq<T>, Seq<char>>,
) -> Result<Seq<T>, LoadFailure> {
    match file {
        None => Ok(Seq::empty()),
        Some(Err(e)) => Err(LoadFailure::Json(e)),
        Some(Ok(v)) => match decode(v) {
            Ok(x) => Ok(x),
            Err(m) => Err(LoadFailure::Schema(m)),
        },
    }
}

/// What loading the three files gives: the users, teams and messages, or
/// the first failure, in that order.
pub open spec fn load_spec(
    users_file: Option<Result<JsonValue, JsonIoError>>,
    teams_file: Option<Result<JsonValue, JsonIoError>>,
    messages_file: Option<Result<JsonValue, JsonIoError>>,
) -> Result<(Seq<UserRecord>, Seq<TeamRecord>, Seq<MessageRecord>), LoadFailure> {
    match decoded(users_file, |v: JsonValue| users_decode(v)) {
        Err(e) => Err(e),
        Ok(u) => match decoded(teams_file, |v: JsonValue| teams_decode(v)) {
            Err(e) => Err(e),
            Ok(t) => match decoded(messages_file, |v: JsonValue| messages_decode(v)) {
                Err(e) => Err(e),
                Ok(m) => Ok((u, t, m)),
            },
        },
    }
}

/// Whether the storage error stands for the load failure.
pub open spec fn same_failure(e: StorageError, f: LoadFailure) -> bool {
    match f {
        LoadFailure::Json(j) => e == StorageError::Json(j),
        LoadFailure::Schema(m) => e matches StorageError::Schema(x) && x@ == m,
    }
}

impl ServerStorage {
    /// Builds the storage kept in the three files from what was read of
    /// them: an absent file holds nothing, a file that could not be read or
    /// parsed fails with its error, and each document is checked against its
    /// schema, users first, then teams, then messages.
    pub fn load_or_default(
        users_path: &str,
        teams_path: &str,
        messages_path: &str,
        users_file: Option<Result<JsonValue, JsonIoError>>,
        teams_file: Option<Result<JsonValue, JsonIoError>>,
        messages_file: Option<Result<JsonValue, JsonIoError>>,
    ) -> (r: Result<ServerStorage, StorageError>)
        ensures
            match load_spec(users_file, teams_file, messages_file) {
                Ok((u, t, m)) => r matches Ok(st) && st@ == (StorageView {
                    users_path: users_path@,
                    teams_path: teams_path@,
                    messages_path: messages_path@,
                    users: u,
                    teams: t,
                    messages: m,
                }),
                Err(f) => r matches Err(e) && same_failure(e, f),
            },
    {
        let users: Vec<UserEntry> = match users_file {
            None => Vec::new(),
            Some(Err(e)) => {
                return Err(StorageError::Json(e));
            },
            Some(Ok(v)) => users_from_json_value(&v)?,
        };
        let team_tree: TeamTree = match teams_file {
            None => TeamTree { teams: Vec::new() },
            Some(Err(e)) => {
                return Err(StorageError::Json(e));
            },
            Some(Ok(v)) => teams_from_json_value(&v)?,
        };
        let messages: Vec<MessageEntry> = match messages_file {
            None => Vec::new(),
            Some(Err(e)) => {
                return Err(StorageError::Json(e));
            },
            Some(Ok(v)) => messages_from_json_value(&v)?,
        };
        let r = ServerStorage::from_parts(users_path, teams_path, messages_path, users, team_tree, messages);
        assert(r@.users =~= match decoded(users_file, |v: JsonValue| users_decode(v)) {
            Ok(x) => x,
            Err(_) => r@.users,
        });
        assert(r@.teams =~= match decoded(teams_file, |v: JsonValue| teams_decode(v)) {
            Ok(x) => x,
            Err(_) => r@.teams,
        });
        assert(r@.messages =~= match decoded(messages_file, |v: JsonValue| messages_decode(v)) {
            Ok(x) => x,
            Err(_) => r@.messages,
        });
        Ok(r)
    }

    /// The users document to save.
    pub fn users_document(&self) -> (r: JsonValue)
        ensures
            users_doc(r, self@.users),
    {
        users_to_json_value(self.users_list().as_slice())
    }

    /// The teams document to save.
    pub fn teams_document(&self) -> (r: JsonValue)
        ensures
            teams_doc(r, self@.teams),
    {
        teams_to_json_value(self.team_tree())
    }

    /// The messages document to save.
    pub fn messages_document(&self) -> (r: JsonValue)
        ensures
            messages_doc(r, self@.messages),
    {
        messages_to_json_value(self.messages_list().as_slice())
    }
}

/// Saving then loading gives the data back: the documents of a storage,
/// read again, hold its users, teams and messages.
pub proof fn lemma_storage_round_trip(
    st: StorageView,
    users_doc_value: JsonValue,
    teams_doc_value: JsonValue,
    messages_doc_value: JsonValue,
)
    requires
        users_doc(users_doc_value, st.users),
        teams_doc(teams_doc_value, st.teams),
        messages_doc(messages_doc_value, st.messages),
    ensures
        load_spec(
            Some(Ok(users_doc_value)),
            Some(Ok(teams_doc_value)),
            Some(Ok(messages_doc_value)),
        ) == Ok::<(Seq<UserRecord>, Seq<TeamRecord>, Seq<MessageRecord>), LoadFailure>(
            (st.users, st.teams, st.messages),
        ),
{
    lemma_users_round_trip(users_doc_value, st.users);
    lemma_teams_round_trip(teams_doc_value, st.teams);
    lemma_messages_round_trip(messages_doc_value, st.messages);
}

} // verus!
