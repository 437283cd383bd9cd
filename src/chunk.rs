//! Completion chunks and the decoding of one event payload into one.
use vstd::prelude::*;
use crate::json::{Json, is_json, json_of, parse_json, error_message};

verus! {

/// Why generation of a choice stopped.
#[derive(Clone, Copy, Debug, PartialEq, Eq, Structural)]
pub enum FinishReason {
    Stop,
    Length,
    ContentFilter,
    ToolCalls,
}

/// The reason that a `finish_reason` text names, if it names one.
pub open spec fn finish_reason_of(s: Seq<char>) -> Option<FinishReason> {
    if s == "stop"@ {
        Some(FinishReason::Stop)
    } else if s == "length"@ {
        Some(FinishReason::Length)
    } else if s == "content_filter"@ {
        Some(FinishReason::ContentFilter)
    } else if s == "tool_calls"@ {
        Some(FinishReason::ToolCalls)
    } else {
        None
    }
}

fn same_text(s: &str, lit: &str) -> (r: bool)
    ensures
        r == (s@ == lit@),
{
    let a = s.to_owned();
    let b = lit.to_owned();
    a == b
}

pub fn finish_reason_from_text(s: &str) -> (r: Option<FinishReason>)
    ensures
        r == finish_reason_of(s@),
{
    proof {
        reveal_strlit("stop");
        reveal_strlit("length");
        reveal_strlit("content_filter");
        reveal_strlit("tool_calls");
    }
    if same_text(s, "stop") {
        Some(FinishReason::Stop)
    } else if same_text(s, "length") {
        Some(FinishReason::Length)
    } else if same_text(s, "content_filter") {
        Some(FinishReason::ContentFilter)
    } else if same_text(s, "tool_calls") {
        Some(FinishReason::ToolCalls)
    } else {
        None
    }
}

/// A piece of one tool call; the pieces with one index form the call.
#[derive(Clone, Debug, PartialEq)]
pub struct ToolCallDelta {
    pub index: u64,
    pub id: Option<String>,
    pub name: Option<String>,
    /// A fragment of the call's arguments, as JSON text.
    pub arguments: Option<String>,
}

/// The part of a message that one chunk adds; any part may be absent.
#[derive(Clone, Debug, PartialEq)]
pub struct ChunkDelta {
    pub role: Option<String>,
    pub content: Option<String>,
    pub tool_calls: Option<Vec<ToolCallDelta>>,
}

#[derive(Clone, Debug, PartialEq)]
pub struct ChunkChoice {
    pub index: u64,
    pub delta: ChunkDelta,
    pub finish_reason: Option<FinishReason>,
}

/// One incremental unit of a streamed completion.
#[derive(Clone, Debug, PartialEq)]
pub struct CompletionChunk {
    pub id: String,
    pub created: u64,
    pub model: String,
    pub choices: Vec<ChunkChoice>,
}

#[derive(Clone, Copy, Debug, PartialEq, Eq, Structural)]
pub enum FailureKind {
    /// The payload is not well-formed JSON.
    InvalidJson,
    /// The payload is JSON, but not a completion chunk.
    UnexpectedShape,
}

/// A payload that could not be decoded, kept as it arrived.
#[derive(Clone, Debug, PartialEq)]
pub struct DecodeFailure {
    pub kind: FailureKind,
    pub cause: String,
    pub raw: Vec<u8>,
}

/// What one event decodes to.
#[derive(Clone, Debug, PartialEq)]
pub enum DecodeOutcome {
    Chunk(CompletionChunk),
    Failure(DecodeFailure),
}

/// Builds a tool-call piece from the fields read out of the JSON; `None`
/// where the index is missing or a field has the wrong type.
pub fn tool_call_from_parts(
    index: Option<u64>,
    id: Option<Option<String>>,
    name: Option<Option<String>>,
    arguments: Option<Option<String>>,
) -> (r: Option<ToolCallDelta>)
    ensures
        r is Some <==> (index is Some && id is Some && name is Some && arguments is Some),
        r is Some ==> r.unwrap() == (ToolCallDelta {
            index: index.unwrap(),
            id: id.unwrap(),
            name: name.unwrap(),
            arguments: arguments.unwrap(),
        }),
{
    match (index, id, name, arguments) {
        (Some(index), Some(id), Some(name), Some(arguments)) => Some(
            ToolCallDelta { index, id, name, arguments },
        ),
        _ => None,
    }
}

/// Builds a choice from the fields read out of the JSON. An outer `None`
/// stands for a field of the wrong type; an inner `None` for a field that is
/// absent or `null`.
pub fn choice_from_parts(
    index: Option<u64>,
    role: Option<Option<String>>,
    content: Option<Option<String>>,
    tool_calls: Option<Option<Vec<ToolCallDelta>>>,
    finish: Option<Option<String>>,
) -> (r: Option<ChunkChoice>)
    ensures
        r is Some <==> (index is Some && role is Some && content is Some && tool_calls is Some
            && finish is Some && (finish.unwrap() is None || finish_reason_of(
            finish.unwrap().unwrap()@,
        ) is Some)),
        r is Some ==> ({
            let c = r.unwrap();
            &&& c.index == index.unwrap()
            &&& c.delta.role == role.unwrap()
            &&& c.delta.content == content.unwrap()
            &&& c.delta.tool_calls == tool_calls.unwrap()
            &&& c.finish_reason == match finish.unwrap() {
                Some(s) => finish_reason_of(s@),
                None => None,
            }
        }),
{
    match (index, role, content, tool_calls, finish) {
        (Some(index), Some(role), Some(content), Some(tool_calls), Some(finish)) => {
            let finish_reason = match finish {
                None => None,
                Some(s) => {
                    let f = finish_reason_from_text(s.as_str());
                    if f.is_none() {
                        return None;
                    }
                    f
                },
            };
            Some(
                ChunkChoice {
                    index,
                    delta: ChunkDelta { role, content, tool_calls },
                    finish_reason,
                },
            )
        },
        _ => None,
    }
}

/// Builds a chunk from the fields read out of the JSON; `None` where one
/// is missing or of the wrong type.
pub fn chunk_from_parts(
    id: Option<String>,
    created: Option<u64>,
    model: Option<String>,
    choices: Option<Vec<ChunkChoice>>,
) -> (r: Option<CompletionChunk>)
    ensures
        r is Some <==> (id is Some && created is Some && model is Some && choices is Some),
        r is Some ==> ({
            let c = r.unwrap();
            &&& c.id == id.unwrap()
            &&& c.created == created.unwrap()
            &&& c.model == model.unwrap()
            &&& c.choices == choices.unwrap()
        }),
{
    match (id, created, model, choices) {
        (Some(id), Some(created), Some(model), Some(choices)) => Some(
            CompletionChunk { id, created, model, choices },
        ),
        _ => None,
    }
}

/// The value of the first member named `key`.
pub open spec fn member(entries: Seq<(String, Json)>, key: Seq<char>) -> Option<Json>
    decreases entries.len(),
{
    if entries.len() == 0 {
        None
    } else if entries[0].0@ == key {
        Some(entries[0].1)
    } else {
        member(entries.drop_first(), key)
    }
}

/// The member `key` of an object; `None` when absent or not an object.
pub open spec fn field(j: Option<Json>, key: Seq<char>) -> Option<Json> {
    match j {
        Some(Json::Object(m)) => member(m@, key),
        _ => None,
    }
}

/// An optional text: `Some(None)` when absent or `null`, `None` when of
/// another type.
pub open spec fn text_of(j: Option<Json>) -> Option<Option<Seq<char>>> {
    match j {
        None => Some(None),
        Some(Json::Null) => Some(None),
        Some(Json::Str(s)) => Some(Some(s@)),
        _ => None,
    }
}

pub open spec fn required_text_of(j: Option<Json>) -> Option<Seq<char>> {
    match j {
        Some(Json::Str(s)) => Some(s@),
        _ => None,
    }
}

/// The value of decimal digits, while it fits in `u64`.
pub open spec fn decimal(t: Seq<u8>) -> Option<u64>
    decreases t.len(),
{
    if t.len() == 0 {
        Some(0)
    } else {
        match decimal(t.drop_last()) {
            Some(v) => {
                let d = t.last();
                let n = 10 * (v as int) + (d as int - 48);
                if 48 <= d <= 57 && n <= u64::MAX {
                    Some(n as u64)
                } else {
                    None
                }
            },
            None => None,
        }
    }
}

/// A number that is a non-negative integer fitting in `u64`.
pub open spec fn u64_of(j: Option<Json>) -> Option<u64> {
    match j {
        Some(Json::Number(t)) => if t@.len() > 0 {
            decimal(t@)
        } else {
            None
        },
        _ => None,
    }
}

pub open spec fn opt_view(o: Option<String>) -> Option<Seq<char>> {
    match o {
        Some(s) => Some(s@),
        None => None,
    }
}

pub open spec fn opt_ref(o: Option<&Json>) -> Option<Json> {
    match o {
        Some(j) => Some(*j),
        None => None,
    }
}

pub open spec fn tool_call_ok(j: Json) -> bool {
    let f = field(Some(j), "function"@);
    &&& u64_of(field(Some(j), "index"@)) is Some
    &&& text_of(field(Some(j), "id"@)) is Some
    &&& text_of(field(f, "name"@)) is Some
    &&& text_of(field(f, "arguments"@)) is Some
}

/// `t` is the tool-call piece that `j` describes.
pub open spec fn tool_call_matches(j: Json, t: ToolCallDelta) -> bool {
    let f = field(Some(j), "function"@);
    &&& tool_call_ok(j)
    &&& t.index == u64_of(field(Some(j), "index"@)).unwrap()
    &&& opt_view(t.id) == text_of(field(Some(j), "id"@)).unwrap()
    &&& opt_view(t.name) == text_of(field(f, "name"@)).unwrap()
    &&& opt_view(t.arguments) == text_of(field(f, "arguments"@)).unwrap()
}

pub open spec fn tool_calls_ok(delta: Option<Json>) -> bool {
    match field(delta, "tool_calls"@) {
        None => true,
        Some(Json::Null) => true,
        Some(Json::Array(items)) => forall|i: int|
            0 <= i < items@.len() ==> tool_call_ok(#[trigger] items@[i]),
        _ => false,
    }
}

pub open spec fn tool_calls_match(delta: Option<Json>, tc: Option<Vec<ToolCallDelta>>) -> bool {
    match field(delta, "tool_calls"@) {
        None => tc is None,
        Some(Json::Null) => tc is None,
        Some(Json::Array(items)) => {
            &&& tc is Some
            &&& tc.unwrap()@.len() == items@.len()
            &&& forall|i: int|
                0 <= i < items@.len() ==> tool_call_matches(#[trigger] items@[i], tc.unwrap()@[i])
        },
        _ => false,
    }
}

pub open spec fn choice_ok(j: Json) -> bool {
    let delta = field(Some(j), "delta"@);
    &&& u64_of(field(Some(j), "index"@)) is Some
    &&& text_of(field(delta, "role"@)) is Some
    &&& text_of(field(delta, "content"@)) is Some
    &&& tool_calls_ok(delta)
    &&& match text_of(field(Some(j), "finish_reason"@)) {
        Some(None) => true,
        Some(Some(s)) => finish_reason_of(s) is Some,
        None => false,
    }
}

/// `c` is the choice that `j` describes.
pub open spec fn choice_matches(j: Json, c: ChunkChoice) -> bool {
    let delta = field(Some(j), "delta"@);
    &&& choice_ok(j)
    &&& c.index == u64_of(field(Some(j), "index"@)).unwrap()
    &&& opt_view(c.delta.role) == text_of(field(delta, "role"@)).unwrap()
    &&& opt_view(c.delta.content) == text_of(field(delta, "content"@)).unwrap()
    &&& tool_calls_match(delta, c.delta.tool_calls)
    &&& c.finish_reason == match text_of(field(Some(j), "finish_reason"@)).unwrap() {
        Some(s) => finish_reason_of(s),
        None => None,
    }
}

/// Whether `j` has the shape of a completion chunk: text `id` and `model`,
/// an integer `created`, and an array of well-formed `choices`.
pub open spec fn chunk_ok(j: Json) -> bool {
    &&& required_text_of(field(Some(j), "id"@)) is Some
    &&& u64_of(field(Some(j), "created"@)) is Some
    &&& required_text_of(field(Some(j), "model"@)) is Some
    &&& match field(Some(j), "choices"@) {
        Some(Json::Array(items)) => forall|i: int|
            0 <= i < items@.len() ==> choice_ok(#[trigger] items@[i]),
        _ => false,
    }
}

/// `c` is the chunk that `j` describes.
pub open spec fn chunk_matches(j: Json, c: CompletionChunk) -> bool {
    &&& chunk_ok(j)
    &&& c.id@ == required_text_of(field(Some(j), "id"@)).unwrap()
    &&& c.created == u64_of(field(Some(j), "created"@)).unwrap()
    &&& c.model@ == required_text_of(field(Some(j), "model"@)).unwrap()
    &&& match field(Some(j), "choices"@) {
        Some(Json::Array(items)) => {
            &&& c.choices@.len() == items@.len()
            &&& forall|i: int|
                0 <= i < items@.len() ==> choice_matches(#[trigger] items@[i], c.choices@[i])
        },
        _ => false,
    }
}

fn member_exec<'a>(entries: &'a Vec<(String, Json)>, key: &str) -> (r: Option<&'a Json>)
    ensures
        opt_ref(r) == member(entries@, key@),
{
    let k = key.to_owned();
    let mut i: usize = 0;
    assert(entries@.subrange(0, entries@.len() as int) =~= entries@);
    while i < entries.len()
        invariant
            i <= entries@.len(),
            k@ == key@,
            member(entries@, key@) == member(entries@.subrange(i as int, entries@.len() as int), key@),
        decreases entries@.len() - i,
    {
        let ghost rest = entries@.subrange(i as int, entries@.len() as int);
        assert(rest[0] == entries@[i as int]);
        assert(rest.drop_first() =~= entries@.subrange(i + 1, entries@.len() as int));
        if entries[i].0 == k {
            return Some(&entries[i].1);
        }
        i = i + 1;
    }
    None
}

/// The member `key` of `j`, when `j` is an object that has one.
pub fn field_exec<'a>(j: Option<&'a Json>, key: &str) -> (r: Option<&'a Json>)
    ensures
        opt_ref(r) == field(opt_ref(j), key@),
{
    match j {
        Some(Json::Object(m)) => member_exec(m, key),
        _ => None,
    }
}

fn optional_text(j: Option<&Json>) -> (r: Option<Option<String>>)
    ensures
        match r {
            None => text_of(opt_ref(j)) is None,
            Some(t) => text_of(opt_ref(j)) == Some(opt_view(t)),
        },
{
    match j {
        None => Some(None),
        Some(Json::Null) => Some(None),
        Some(Json::Str(s)) => Some(Some(s.clone())),
        _ => None,
    }
}

fn required_text(j: Option<&Json>) -> (r: Option<String>)
    ensures
        opt_view(r) == required_text_of(opt_ref(j)),
{
    match j {
        Some(Json::Str(s)) => Some(s.clone()),
        _ => None,
    }
}

proof fn lemma_decimal_none(t: Seq<u8>, i: int)
    requires
        0 <= i <= t.len(),
        decimal(t.take(i)) is None,
    ensures
        decimal(t) is None,
    decreases t.len() - i,
{
    if i < t.len() {
        assert(t.take(i + 1).drop_last() =~= t.take(i));
        lemma_decimal_none(t, i + 1);
    } else {
        assert(t.take(i) =~= t);
    }
}

/// The value of the decimal digits `t`, when there are some and it fits.
pub fn decimal_exec(t: &Vec<u8>) -> (r: Option<u64>)
    ensures
        r == (if t@.len() > 0 {
            decimal(t@)
        } else {
            None
        }),
{
    if t.len() == 0 {
        return None;
    }
    let mut acc: u64 = 0;
    let mut i: usize = 0;
    assert(t@.take(0) =~= Seq::<u8>::empty());
    while i < t.len()
        invariant
            i <= t@.len(),
            decimal(t@.take(i as int)) == Some(acc),
        decreases t@.len() - i,
    {
        let d = t[i];
        assert(t@.take(i + 1).drop_last() =~= t@.take(i as int));
        assert(t@.take(i + 1).last() == d);
        if d < 48 || d > 57 || acc > 1844674407370955161u64 || (acc == 1844674407370955161u64
            && d > 53) {
            assert(decimal(t@.take(i + 1)) is None) by (nonlinear_arith)
                requires
                    d < 48 || d > 57 || acc > 1844674407370955161u64 || (acc
                        == 1844674407370955161u64 && d > 53),
                    decimal(t@.take(i + 1)) == (if 48 <= d <= 57 && 10 * (acc as int) + (d as int
                        - 48) <= u64::MAX {
                        Some((10 * (acc as int) + (d as int - 48)) as u64)
                    } else {
                        None::<u64>
                    }),
            ;
            proof {
                lemma_decimal_none(t@, i + 1);
            }
            return None;
        }
        assert(10 * (acc as int) + (d as int - 48) <= u64::MAX) by (nonlinear_arith)
            requires
                48 <= d <= 57,
                acc < 1844674407370955161u64 || (acc == 1844674407370955161u64 && d <= 53),
        ;
        acc = 10 * acc + (d - 48) as u64;
        i = i + 1;
    }
    assert(t@.take(t@.len() as int) =~= t@);
    Some(acc)
}

fn required_u64(j: Option<&Json>) -> (r: Option<u64>)
    ensures
        r == u64_of(opt_ref(j)),
{
    match j {
        Some(Json::Number(t)) => decimal_exec(t),
        _ => None,
    }
}

fn read_tool_call(j: &Json) -> (r: Option<ToolCallDelta>)
    ensures
        r is Some <==> tool_call_ok(*j),
        r is Some ==> tool_call_matches(*j, r.unwrap()),
{
    let f = field_exec(Some(j), "function");
    tool_call_from_parts(
        required_u64(field_exec(Some(j), "index")),
        optional_text(field_exec(Some(j), "id")),
        optional_text(field_exec(f, "name")),
        optional_text(field_exec(f, "arguments")),
    )
}

fn read_tool_calls(delta: Option<&Json>) -> (r: Option<Option<Vec<ToolCallDelta>>>)
    ensures
        r is Some <==> tool_calls_ok(opt_ref(delta)),
        r is Some ==> tool_calls_match(opt_ref(delta), r.unwrap()),
{
    let items = match field_exec(delta, "tool_calls") {
        None => return Some(None),
        Some(Json::Null) => return Some(None),
        Some(Json::Array(items)) => items,
        _ => return None,
    };
    let mut calls: Vec<ToolCallDelta> = Vec::new();
    let mut i: usize = 0;
    while i < items.len()
        invariant
            i <= items@.len(),
            field(opt_ref(delta), "tool_calls"@) == Some(Json::Array(*items)),
            calls@.len() == i,
            forall|k: int| 0 <= k < i ==> tool_call_matches(#[trigger] items@[k], calls@[k]),
        decreases items@.len() - i,
    {
        match read_tool_call(&items[i]) {
            Some(c) => calls.push(c),
            None => {
                assert(!tool_call_ok(items@[i as int]));
                let ghost inner = field(opt_ref(delta), "tool_calls"@);
                assert(inner == Some(Json::Array(*items)));
                assert(inner is Some);
                assert(inner->Some_0 is Array);
                assert(inner->Some_0->Array_0 == *items);
                assert(!(inner is None));
                assert(!(inner == Some(Json::Null)));
                assert(!tool_calls_ok(opt_ref(delta)));
                return None;
            },
        }
        i = i + 1;
    }
    Some(Some(calls))
}

fn read_choice(j: &Json) -> (r: Option<ChunkChoice>)
    ensures
        r is Some <==> choice_ok(*j),
        r is Some ==> choice_matches(*j, r.unwrap()),
{
    let delta = field_exec(Some(j), "delta");
    choice_from_parts(
        required_u64(field_exec(Some(j), "index")),
        optional_text(field_exec(delta, "role")),
        optional_text(field_exec(delta, "content")),
        read_tool_calls(delta),
        optional_text(field_exec(Some(j), "finish_reason")),
    )
}

/// Reads a completion chunk out of a JSON document: `None` exactly when the
/// document does not have a chunk's shape.
pub fn chunk_of_json(j: &Json) -> (r: Option<CompletionChunk>)
    ensures
        r is Some <==> chunk_ok(*j),
        r is Some ==> chunk_matches(*j, r.unwrap()),
{
    let id = required_text(field_exec(Some(j), "id"));
    let created = required_u64(field_exec(Some(j), "created"));
    let model = required_text(field_exec(Some(j), "model"));
    let items = match field_exec(Some(j), "choices") {
        Some(Json::Array(items)) => items,
        _ => return None,
    };
    let mut choices: Vec<ChunkChoice> = Vec::new();
    let mut i: usize = 0;
    while i < items.len()
        invariant
            i <= items@.len(),
            field(Some(*j), "choices"@) == Some(Json::Array(*items)),
            choices@.len() == i,
            forall|k: int| 0 <= k < i ==> choice_matches(#[trigger] items@[k], choices@[k]),
        decreases items@.len() - i,
    {
        match read_choice(&items[i]) {
            Some(c) => choices.push(c),
            None => {
                assert(!choice_ok(items@[i as int]));
                let ghost inner = field(Some(*j), "choices"@);
                assert(inner is Some);
                assert(inner->Some_0 is Array);
                assert(inner->Some_0->Array_0 == *items);
                return None;
            },
        }
        i = i + 1;
    }
    chunk_from_parts(id, created, model, Some(choices))
}

/// Whether `r` is the failure of `kind` that keeps `payload`.
pub open spec fn is_failure_of(r: DecodeOutcome, kind: FailureKind, payload: Seq<u8>) -> bool {
    match r {
        DecodeOutcome::Failure(f) => f.kind == kind && f.raw@ == payload,
        DecodeOutcome::Chunk(_) => false,
    }
}

/// What `payload` decodes to: a failure that keeps it when it is not JSON or
/// not a chunk's shape, and otherwise the chunk that the document describes.
pub open spec fn decodes_to(payload: Seq<u8>, r: DecodeOutcome) -> bool {
    if !is_json(payload) {
        is_failure_of(r, FailureKind::InvalidJson, payload)
    } else if chunk_ok(json_of(payload)) {
        match r {
            DecodeOutcome::Chunk(c) => chunk_matches(json_of(payload), c),
            DecodeOutcome::Failure(_) => false,
        }
    } else {
        is_failure_of(r, FailureKind::UnexpectedShape, payload)
    }
}

/// Decodes one event payload. Never fails as a whole: a payload that is not
/// a chunk becomes a failure outcome holding the payload.
pub fn decode_payload(payload: Vec<u8>) -> (r: DecodeOutcome)
    ensures
        decodes_to(payload@, r),
{
    match parse_json(payload.as_slice()) {
        Err(e) => DecodeOutcome::Failure(
            DecodeFailure { kind: FailureKind::InvalidJson, cause: error_message(&e), raw: payload },
        ),
        Ok(v) => match chunk_of_json(&v) {
            Some(c) => DecodeOutcome::Chunk(c),
            None => DecodeOutcome::Failure(
                DecodeFailure {
                    kind: FailureKind::UnexpectedShape,
                    cause: "not a completion chunk".to_owned(),
                    raw: payload,
                },
            ),
        },
    }
}

} // verus!
