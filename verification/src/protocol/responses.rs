//! The protocol's message envelope: a tagged union of seven variants,
//! carried on the wire as a JSON object whose `type` member is the numeric
//! tag, framed by the ASCII record separator.
use vstd::prelude::*;
use vstd::string::StringExecFns;
use crate::protocol::json::{
    JsonModel, JsonValue, jv_model, jv_model_members, lemma_jv_model_members,
    lemma_parse_print_document, json_to_text, parse_json, spec_parse_document, spec_print,
    wf_json,
};

verus! {

/// The frame terminator: the ASCII record separator.
pub const MESSAGE_TERMINATOR: char = '\x1e';

/// Why a frame could not be decoded.  Scoped to one message: the reader
/// loop recovers and goes on.
#[derive(Debug, PartialEq, Eq, Structural, Clone, Copy)]
pub enum DecodeError {
    /// The frame is not a JSON object with a numeric `type` member.
    MissingType,
    /// The tag is outside the known range `1..=7`.
    UnsupportedType(u64),
    /// The frame is not well-formed JSON, or a required variant field is
    /// missing or has the wrong shape.
    MalformedField,
}

/// Why a message could not be encoded: it holds a string with a control
/// character, which the wire form cannot carry.
#[derive(Debug, PartialEq, Eq, Structural, Clone, Copy)]
pub struct EncodeError;

#[derive(Debug, PartialEq)]
pub struct InvocationFields {
    pub invocation_id: Option<String>,
    pub target: String,
    pub arguments: JsonValue,
}

#[derive(Debug, PartialEq)]
pub struct StreamItemFields {
    pub invocation_id: Option<String>,
    pub item: JsonValue,
}

#[derive(Debug, PartialEq)]
pub struct CompletionFields {
    pub invocation_id: Option<String>,
    pub error: Option<String>,
    pub result: JsonValue,
}

#[derive(Debug, PartialEq)]
pub struct StreamInvocationFields {
    pub invocation_id: Option<String>,
    pub target: String,
    pub arguments: JsonValue,
}

#[derive(Debug, PartialEq)]
pub struct CancelInvokationFields {
    pub invocation_id: Option<String>,
}

#[derive(Debug, PartialEq)]
pub struct CloseFields {
    pub error: Option<String>,
}

/// A protocol message.  The wire tag of each variant is fixed: Invocation
/// is 1, StreamItem 2, Completion 3, StreamInvocation 4, CancelInvokation
/// 5, Ping 6, Close 7.
#[derive(Debug, PartialEq)]
pub enum Messsage {
    Invocation(InvocationFields),
    StreamItem(StreamItemFields),
    Completion(CompletionFields),
    StreamInvocation(StreamInvocationFields),
    CancelInvokation(CancelInvokationFields),
    Ping,
    Close(CloseFields),
}

/// Ghost-level message: what a `Messsage` denotes.
pub ghost enum MessageModel {
    Invocation { invocation_id: Option<Seq<char>>, target: Seq<char>, arguments: JsonModel },
    StreamItem { invocation_id: Option<Seq<char>>, item: JsonModel },
    Completion {
        invocation_id: Option<Seq<char>>,
        error: Option<Seq<char>>,
        result: JsonModel,
    },
    StreamInvocation {
        invocation_id: Option<Seq<char>>,
        target: Seq<char>,
        arguments: JsonModel,
    },
    CancelInvokation { invocation_id: Option<Seq<char>> },
    Ping,
    Close { error: Option<Seq<char>> },
}

pub open spec fn view_opt_str(o: Option<String>) -> Option<Seq<char>> {
    match o {
        Some(s) => Some(s@),
        None => None,
    }
}

impl View for Messsage {
    type V = MessageModel;

    open spec fn view(&self) -> MessageModel {
        match self {
            Messsage::Invocation(f) => MessageModel::Invocation {
                invocation_id: view_opt_str(f.invocation_id),
                target: f.target@,
                arguments: f.arguments@,
            },
            Messsage::StreamItem(f) => MessageModel::StreamItem {
                invocation_id: view_opt_str(f.invocation_id),
                item: f.item@,
            },
            Messsage::Completion(f) => MessageModel::Completion {
                invocation_id: view_opt_str(f.invocation_id),
                error: view_opt_str(f.error),
                result: f.result@,
            },
            Messsage::StreamInvocation(f) => MessageModel::StreamInvocation {
                invocation_id: view_opt_str(f.invocation_id),
                target: f.target@,
                arguments: f.arguments@,
            },
            Messsage::CancelInvokation(f) => MessageModel::CancelInvokation {
                invocation_id: view_opt_str(f.invocation_id),
            },
            Messsage::Ping => MessageModel::Ping,
            Messsage::Close(f) => MessageModel::Close { error: view_opt_str(f.error) },
        }
    }
}

// ---------------------------------------------------------------------------
// The wire object of a message: `type` first, then the variant's fields in
// declared order, optional fields omitted when absent.
// ---------------------------------------------------------------------------

pub open spec fn opt_member(key: Seq<char>, v: Option<Seq<char>>) -> Seq<(Seq<char>, JsonModel)> {
    match v {
        Some(t) => seq![(key, JsonModel::Str(t))],
        None => Seq::empty(),
    }
}

pub open spec fn msg_members(m: MessageModel) -> Seq<(Seq<char>, JsonModel)> {
    match m {
        MessageModel::Invocation { invocation_id, target, arguments } => seq![
            ("type"@, JsonModel::Num(1)),
        ] + opt_member("invocation_id"@, invocation_id) + seq![
            ("target"@, JsonModel::Str(target)),
            ("arguments"@, arguments),
        ],
        MessageModel::StreamItem { invocation_id, item } => seq![("type"@, JsonModel::Num(2))]
            + opt_member("invocation_id"@, invocation_id) + seq![("item"@, item)],
        MessageModel::Completion { invocation_id, error, result } => seq![
            ("type"@, JsonModel::Num(3)),
        ] + opt_member("invocation_id"@, invocation_id) + opt_member("error"@, error) + seq![
            ("result"@, result),
        ],
        MessageModel::StreamInvocation { invocation_id, target, arguments } => seq![
            ("type"@, JsonModel::Num(4)),
        ] + opt_member("invocation_id"@, invocation_id) + seq![
            ("target"@, JsonModel::Str(target)),
            ("arguments"@, arguments),
        ],
        MessageModel::CancelInvokation { invocation_id } => seq![("type"@, JsonModel::Num(5))]
            + opt_member("invocation_id"@, invocation_id),
        MessageModel::Ping => seq![("type"@, JsonModel::Num(6))],
        MessageModel::Close { error } => seq![("type"@, JsonModel::Num(7))] + opt_member(
            "error"@,
            error,
        ),
    }
}

pub open spec fn msg_json(m: MessageModel) -> JsonModel {
    JsonModel::Obj(msg_members(m))
}

/// A message is encodable exactly when its wire object is well formed,
/// i.e. none of its strings holds a control character.
pub open spec fn msg_wf(m: MessageModel) -> bool {
    wf_json(msg_json(m))
}

/// The wire text of a message: the printed object plus the terminator.
pub open spec fn spec_encode_text(m: MessageModel) -> Seq<char> {
    spec_print(msg_json(m)) + seq![MESSAGE_TERMINATOR]
}

// ---------------------------------------------------------------------------
// Decoding: from wire text back to a message.
// ---------------------------------------------------------------------------

pub open spec fn get_field_from(
    o: Seq<(Seq<char>, JsonModel)>,
    key: Seq<char>,
    i: int,
) -> Option<JsonModel>
    decreases o.len() - i,
{
    if !(0 <= i < o.len()) {
        None
    } else if o[i].0 == key {
        Some(o[i].1)
    } else {
        get_field_from(o, key, i + 1)
    }
}

/// The value of the first member named `key`, if any.
pub open spec fn get_field(o: Seq<(Seq<char>, JsonModel)>, key: Seq<char>) -> Option<JsonModel> {
    get_field_from(o, key, 0)
}

/// Reads an optional text member: absent or `null` count as absent, a
/// string is its value, and any other shape is refused (`None`).
pub open spec fn spec_opt_text(o: Seq<(Seq<char>, JsonModel)>, key: Seq<char>) -> Option<
    Option<Seq<char>>,
> {
    match get_field(o, key) {
        None => Some(None),
        Some(JsonModel::Null) => Some(None),
        Some(JsonModel::Str(t)) => Some(Some(t)),
        Some(_) => None,
    }
}

pub open spec fn spec_invocation_from(o: Seq<(Seq<char>, JsonModel)>, stream: bool) -> Result<
    MessageModel,
    DecodeError,
> {
    match spec_opt_text(o, "invocation_id"@) {
        None => Err(DecodeError::MalformedField),
        Some(id) => match get_field(o, "target"@) {
            Some(JsonModel::Str(t)) => match get_field(o, "arguments"@) {
                Some(args) => Ok(
                    if stream {
                        MessageModel::StreamInvocation {
                            invocation_id: id,
                            target: t,
                            arguments: args,
                        }
                    } else {
                        MessageModel::Invocation {
                            invocation_id: id,
                            target: t,
                            arguments: args,
                        }
                    },
                ),
                None => Err(DecodeError::MalformedField),
            },
            _ => Err(DecodeError::MalformedField),
        },
    }
}

pub open spec fn spec_stream_item_from(o: Seq<(Seq<char>, JsonModel)>) -> Result<
    MessageModel,
    DecodeError,
> {
    match spec_opt_text(o, "invocation_id"@) {
        None => Err(DecodeError::MalformedField),
        Some(id) => match get_field(o, "item"@) {
            Some(item) => Ok(MessageModel::StreamItem { invocation_id: id, item }),
            None => Err(DecodeError::MalformedField),
        },
    }
}

pub open spec fn spec_completion_from(o: Seq<(Seq<char>, JsonModel)>) -> Result<
    MessageModel,
    DecodeError,
> {
    match spec_opt_text(o, "invocation_id"@) {
        None => Err(DecodeError::MalformedField),
        Some(id) => match spec_opt_text(o, "error"@) {
            None => Err(DecodeError::MalformedField),
            Some(err) => match get_field(o, "result"@) {
                Some(result) => Ok(
                    MessageModel::Completion { invocation_id: id, error: err, result },
                ),
                None => Err(DecodeError::MalformedField),
            },
        },
    }
}

pub open spec fn spec_cancel_from(o: Seq<(Seq<char>, JsonModel)>) -> Result<
    MessageModel,
    DecodeError,
> {
    match spec_opt_text(o, "invocation_id"@) {
        None => Err(DecodeError::MalformedField),
        Some(id) => Ok(MessageModel::CancelInvokation { invocation_id: id }),
    }
}

pub open spec fn spec_close_from(o: Seq<(Seq<char>, JsonModel)>) -> Result<
    MessageModel,
    DecodeError,
> {
    match spec_opt_text(o, "error"@) {
        None => Err(DecodeError::MalformedField),
        Some(err) => Ok(MessageModel::Close { error: err }),
    }
}

/// Reads a message out of a parsed wire object.
pub open spec fn spec_msg_from_json(v: JsonModel) -> Result<MessageModel, DecodeError> {
    match v {
        JsonModel::Obj(o) => match get_field(o, "type"@) {
            Some(JsonModel::Num(n)) => if n == 1 {
                spec_invocation_from(o, false)
            } else if n == 2 {
                spec_stream_item_from(o)
            } else if n == 3 {
                spec_completion_from(o)
            } else if n == 4 {
                spec_invocation_from(o, true)
            } else if n == 5 {
                spec_cancel_from(o)
            } else if n == 6 {
                Ok(MessageModel::Ping)
            } else if n == 7 {
                spec_close_from(o)
            } else {
                Err(DecodeError::UnsupportedType(n as u64))
            },
            _ => Err(DecodeError::MissingType),
        },
        _ => Err(DecodeError::MissingType),
    }
}

/// Drops one trailing record separator, if present.
pub open spec fn strip_terminator(s: Seq<char>) -> Seq<char> {
    if s.len() > 0 && s[s.len() - 1] == MESSAGE_TERMINATOR {
        s.drop_last()
    } else {
        s
    }
}

/// What decoding a frame yields, for every frame text.
pub open spec fn spec_decode(s: Seq<char>) -> Result<MessageModel, DecodeError> {
    match spec_parse_document(strip_terminator(s)) {
        None => Err(DecodeError::MalformedField),
        Some(v) => spec_msg_from_json(v),
    }
}

// ---------------------------------------------------------------------------
// Executable codec.
// ---------------------------------------------------------------------------

fn find_field(o: &Vec<(String, JsonValue)>, i: usize, key: &String) -> (r: Option<usize>)
    requires
        i <= o@.len(),
    ensures
        r is None ==> get_field_from(jv_model_members(o@), key@, i as int) is None,
        r matches Some(ix) ==> i <= ix < o@.len() && jv_model_members(o@)[ix as int].0 == key@
            && get_field_from(jv_model_members(o@), key@, i as int) == Some(
            jv_model_members(o@)[ix as int].1,
        ),
    decreases o@.len() - i,
{
    proof {
        lemma_jv_model_members(o@);
    }
    if i == o.len() {
        None
    } else {
        if o[i].0 == *key {
            Some(i)
        } else {
            find_field(o, i + 1, key)
        }
    }
}

/// Reads an optional text member, cloning the string out of the object.
fn read_opt_text(o: &Vec<(String, JsonValue)>, key: &String) -> (r: Result<
    Option<String>,
    DecodeError,
>)
    ensures
        r matches Ok(x) ==> spec_opt_text(jv_model_members(o@), key@) == Some(view_opt_str(x)),
        r is Err ==> spec_opt_text(jv_model_members(o@), key@) is None && r == Err::<
            Option<String>,
            DecodeError,
        >(DecodeError::MalformedField),
{
    proof {
        lemma_jv_model_members(o@);
    }
    match find_field(o, 0, key) {
        None => Ok(None),
        Some(ix) => match &o[ix].1 {
            JsonValue::Null => Ok(None),
            JsonValue::Str(t) => Ok(Some(t.clone())),
            _ => Err(DecodeError::MalformedField),
        },
    }
}

/// Reads a mandatory text member, cloning the string out of the object.
fn read_req_text(o: &Vec<(String, JsonValue)>, key: &String) -> (r: Result<String, DecodeError>)
    ensures
        r matches Ok(t) ==> get_field(jv_model_members(o@), key@) == Some(JsonModel::Str(t@)),
        r is Err ==> !(get_field(jv_model_members(o@), key@) matches Some(JsonModel::Str(_)))
            && r == Err::<String, DecodeError>(DecodeError::MalformedField),
{
    proof {
        lemma_jv_model_members(o@);
    }
    match find_field(o, 0, key) {
        None => Err(DecodeError::MalformedField),
        Some(ix) => match &o[ix].1 {
            JsonValue::Str(t) => Ok(t.clone()),
            _ => Err(DecodeError::MalformedField),
        },
    }
}

/// Moves a mandatory member's value out of the object.
fn take_value(o: &mut Vec<(String, JsonValue)>, key: &String) -> (r: Result<
    JsonValue,
    DecodeError,
>)
    ensures
        r matches Ok(jv) ==> get_field(jv_model_members(old(o)@), key@) == Some(jv@),
        r is Err ==> get_field(jv_model_members(old(o)@), key@) is None && r == Err::<
            JsonValue,
            DecodeError,
        >(DecodeError::MalformedField),
{
    proof {
        lemma_jv_model_members(o@);
    }
    match find_field(o, 0, key) {
        None => Err(DecodeError::MalformedField),
        Some(ix) => {
            let pair = o.remove(ix);
            Ok(pair.1)
        },
    }
}

fn msg_from_json(v: JsonValue) -> (r: Result<Messsage, DecodeError>)
    ensures
        r matches Ok(m) ==> spec_msg_from_json(jv_model(v)) == Ok::<MessageModel, DecodeError>(m@),
        r matches Err(e) ==> spec_msg_from_json(jv_model(v)) == Err::<MessageModel, DecodeError>(
            e,
        ),
{
    let mut o = match v {
        JsonValue::Obj(o) => o,
        _ => {
            return Err(DecodeError::MissingType);
        },
    };
    proof {
        lemma_jv_model_members(o@);
    }
    let tag: u64 = match find_field(&o, 0, &String::from_str("type")) {
        Some(ix) => match &o[ix].1 {
            JsonValue::Num(n) => *n,
            _ => {
                return Err(DecodeError::MissingType);
            },
        },
        None => {
            return Err(DecodeError::MissingType);
        },
    };
    if tag == 1 || tag == 4 {
        let invocation_id = match read_opt_text(&o, &String::from_str("invocation_id")) {
            Ok(x) => x,
            Err(e) => {
                return Err(e);
            },
        };
        let target = match read_req_text(&o, &String::from_str("target")) {
            Ok(t) => t,
            Err(e) => {
                return Err(e);
            },
        };
        let arguments = match take_value(&mut o, &String::from_str("arguments")) {
            Ok(a) => a,
            Err(e) => {
                return Err(e);
            },
        };
        if tag == 1 {
            Ok(Messsage::Invocation(InvocationFields { invocation_id, target, arguments }))
        } else {
            Ok(
                Messsage::StreamInvocation(
                    StreamInvocationFields { invocation_id, target, arguments },
                ),
            )
        }
    } else if tag == 2 {
        let invocation_id = match read_opt_text(&o, &String::from_str("invocation_id")) {
            Ok(x) => x,
            Err(e) => {
                return Err(e);
            },
        };
        let item = match take_value(&mut o, &String::from_str("item")) {
            Ok(a) => a,
            Err(e) => {
                return Err(e);
            },
        };
        Ok(Messsage::StreamItem(StreamItemFields { invocation_id, item }))
    } else if tag == 3 {
        let invocation_id = match read_opt_text(&o, &String::from_str("invocation_id")) {
            Ok(x) => x,
            Err(e) => {
                return Err(e);
            },
        };
        let error = match read_opt_text(&o, &String::from_str("error")) {
            Ok(x) => x,
            Err(e) => {
                return Err(e);
            },
        };
        let result = match take_value(&mut o, &String::from_str("result")) {
            Ok(a) => a,
            Err(e) => {
                return Err(e);
            },
        };
        Ok(Messsage::Completion(CompletionFields { invocation_id, error, result }))
    } else if tag == 5 {
        let invocation_id = match read_opt_text(&o, &String::from_str("invocation_id")) {
            Ok(x) => x,
            Err(e) => {
                return Err(e);
            },
        };
        Ok(Messsage::CancelInvokation(CancelInvokationFields { invocation_id }))
    } else if tag == 6 {
        Ok(Messsage::Ping)
    } else if tag == 7 {
        let error = match read_opt_text(&o, &String::from_str("error")) {
            Ok(x) => x,
            Err(e) => {
                return Err(e);
            },
        };
        Ok(Messsage::Close(CloseFields { error }))
    } else {
        Err(DecodeError::UnsupportedType(tag))
    }
}

impl Messsage {
    /// Builds the wire object of this message.
    fn to_json(self) -> (r: JsonValue)
        ensures
            r@ == msg_json(self@),
    {
        let ghost model = self@;
        let mut members: Vec<(String, JsonValue)> = Vec::new();
        match self {
            Messsage::Invocation(f) => {
                members.push((String::from_str("type"), JsonValue::Num(1)));
                match f.invocation_id {
                    Some(id) => members.push(
                        (String::from_str("invocation_id"), JsonValue::Str(id)),
                    ),
                    None => {},
                }
                members.push((String::from_str("target"), JsonValue::Str(f.target)));
                members.push((String::from_str("arguments"), f.arguments));
            },
            Messsage::StreamItem(f) => {
                members.push((String::from_str("type"), JsonValue::Num(2)));
                match f.invocation_id {
                    Some(id) => members.push(
                        (String::from_str("invocation_id"), JsonValue::Str(id)),
                    ),
                    None => {},
                }
                members.push((String::from_str("item"), f.item));
            },
            Messsage::Completion(f) => {
                members.push((String::from_str("type"), JsonValue::Num(3)));
                match f.invocation_id {
                    Some(id) => members.push(
                        (String::from_str("invocation_id"), JsonValue::Str(id)),
                    ),
                    None => {},
                }
                match f.error {
                    Some(e) => members.push((String::from_str("error"), JsonValue::Str(e))),
                    None => {},
                }
                members.push((String::from_str("result"), f.result));
            },
            Messsage::StreamInvocation(f) => {
                members.push((String::from_str("type"), JsonValue::Num(4)));
                match f.invocation_id {
                    Some(id) => members.push(
                        (String::from_str("invocation_id"), JsonValue::Str(id)),
                    ),
                    None => {},
                }
                members.push((String::from_str("target"), JsonValue::Str(f.target)));
                members.push((String::from_str("arguments"), f.arguments));
            },
            Messsage::CancelInvokation(f) => {
                members.push((String::from_str("type"), JsonValue::Num(5)));
                match f.invocation_id {
                    Some(id) => members.push(
                        (String::from_str("invocation_id"), JsonValue::Str(id)),
                    ),
                    None => {},
                }
            },
            Messsage::Ping => {
                members.push((String::from_str("type"), JsonValue::Num(6)));
            },
            Messsage::Close(f) => {
                members.push((String::from_str("type"), JsonValue::Num(7)));
                match f.error {
                    Some(e) => members.push((String::from_str("error"), JsonValue::Str(e))),
                    None => {},
                }
            },
        }
        proof {
            lemma_jv_model_members(members@);
            assert(jv_model_members(members@) =~= msg_members(model));
        }
        JsonValue::Obj(members)
    }

    /// Encodes this message as one wire frame: the JSON object followed by
    /// the record separator.  Fails exactly when the message holds a string
    /// with a control character.
    pub fn encode(self) -> (r: Result<String, EncodeError>)
        ensures
            r is Ok <==> msg_wf(self@),
            r matches Ok(t) ==> t@ == spec_encode_text(self@),
    {
        let ghost model = self@;
        let jv = self.to_json();
        match json_to_text(&jv) {
            Some(mut t) => {
                crate::protocol::json::push_char(&mut t, MESSAGE_TERMINATOR);
                proof {
                    assert(t@ =~= spec_encode_text(model));
                }
                Ok(t)
            },
            None => Err(EncodeError),
        }
    }

    /// Decodes one wire frame (with or without its trailing record
    /// separator) into a message, or says exactly why it cannot.
    pub fn decode(text: &str) -> (r: Result<Messsage, DecodeError>)
        ensures
            r matches Ok(m) ==> spec_decode(text@) == Ok::<MessageModel, DecodeError>(m@),
            r matches Err(e) ==> spec_decode(text@) == Err::<MessageModel, DecodeError>(e),
    {
        let n = text.unicode_len();
        let body: &str = if n > 0 && text.get_char(n - 1) == MESSAGE_TERMINATOR {
            let b = text.substring_char(0, n - 1);
            proof {
                assert(b@ =~= strip_terminator(text@));
            }
            b
        } else {
            proof {
                assert(text@ == strip_terminator(text@));
            }
            text
        };
        match parse_json(body) {
            None => Err(DecodeError::MalformedField),
            Some(v) => msg_from_json(v),
        }
    }

    /// Encodes this message, `None` when it holds a string the wire form
    /// cannot carry.
    pub fn serialize(self) -> (r: Option<String>)
        ensures
            r is Some <==> msg_wf(self@),
            r matches Some(t) ==> t@ == spec_encode_text(self@),
    {
        match self.encode() {
            Ok(t) => Some(t),
            Err(_) => None,
        }
    }

    /// Decodes one wire frame, `None` when it is not a well-formed message.
    pub fn deserialize(json: &str) -> (r: Option<Messsage>)
        ensures
            r is Some <==> spec_decode(json@) is Ok,
            r matches Some(m) ==> spec_decode(json@) == Ok::<MessageModel, DecodeError>(m@),
    {
        match Messsage::decode(json) {
            Ok(m) => Some(m),
            Err(_) => None,
        }
    }
}

// ---------------------------------------------------------------------------
// Round trip: decoding an encoded frame yields the message back.
// ---------------------------------------------------------------------------

/// Reading a message's own wire object back yields the message: the field
/// layout written by `msg_members` is exactly what decoding looks for.
pub proof fn lemma_msg_from_json(m: MessageModel)
    ensures
        spec_msg_from_json(msg_json(m)) == Ok::<MessageModel, DecodeError>(m),
{
    reveal_strlit("type");
    reveal_strlit("invocation_id");
    reveal_strlit("target");
    reveal_strlit("arguments");
    reveal_strlit("item");
    reveal_strlit("error");
    reveal_strlit("result");
    reveal_with_fuel(get_field_from, 8);
    let o = msg_members(m);
    assert("type"@.len() == 4 && "invocation_id"@.len() == 13 && "target"@.len() == 6
        && "arguments"@.len() == 9 && "item"@.len() == 4 && "error"@.len() == 5
        && "result"@.len() == 6);
    assert("type"@ != "item"@) by {
        assert("type"@[0] == 't' && "item"@[0] == 'i');
    }
    match m {
        MessageModel::Invocation { invocation_id, target, arguments } => {
            match invocation_id {
                Some(id) => {
                    assert(o =~= seq![
                        ("type"@, JsonModel::Num(1)),
                        ("invocation_id"@, JsonModel::Str(id)),
                        ("target"@, JsonModel::Str(target)),
                        ("arguments"@, arguments),
                    ]);
                },
                None => {
                    assert(o =~= seq![
                        ("type"@, JsonModel::Num(1)),
                        ("target"@, JsonModel::Str(target)),
                        ("arguments"@, arguments),
                    ]);
                },
            }
        },
        MessageModel::StreamItem { invocation_id, item } => {
            match invocation_id {
                Some(id) => {
                    assert(o =~= seq![
                        ("type"@, JsonModel::Num(2)),
                        ("invocation_id"@, JsonModel::Str(id)),
                        ("item"@, item),
                    ]);
                },
                None => {
                    assert(o =~= seq![("type"@, JsonModel::Num(2)), ("item"@, item)]);
                },
            }
        },
        MessageModel::Completion { invocation_id, error, result } => {
            match (invocation_id, error) {
                (Some(id), Some(e)) => {
                    assert(o =~= seq![
                        ("type"@, JsonModel::Num(3)),
                        ("invocation_id"@, JsonModel::Str(id)),
                        ("error"@, JsonModel::Str(e)),
                        ("result"@, result),
                    ]);
                },
                (Some(id), None) => {
                    assert(o =~= seq![
                        ("type"@, JsonModel::Num(3)),
                        ("invocation_id"@, JsonModel::Str(id)),
                        ("result"@, result),
                    ]);
                },
                (None, Some(e)) => {
                    assert(o =~= seq![
                        ("type"@, JsonModel::Num(3)),
                        ("error"@, JsonModel::Str(e)),
                        ("result"@, result),
                    ]);
                },
                (None, None) => {
                    assert(o =~= seq![("type"@, JsonModel::Num(3)), ("result"@, result)]);
                },
            }
        },
        MessageModel::StreamInvocation { invocation_id, target, arguments } => {
            match invocation_id {
                Some(id) => {
                    assert(o =~= seq![
                        ("type"@, JsonModel::Num(4)),
                        ("invocation_id"@, JsonModel::Str(id)),
                        ("target"@, JsonModel::Str(target)),
                        ("arguments"@, arguments),
                    ]);
                },
                None => {
                    assert(o =~= seq![
                        ("type"@, JsonModel::Num(4)),
                        ("target"@, JsonModel::Str(target)),
                        ("arguments"@, arguments),
                    ]);
                },
            }
        },
        MessageModel::CancelInvokation { invocation_id } => {
            match invocation_id {
                Some(id) => {
                    assert(o =~= seq![
                        ("type"@, JsonModel::Num(5)),
                        ("invocation_id"@, JsonModel::Str(id)),
                    ]);
                },
                None => {
                    assert(o =~= seq![("type"@, JsonModel::Num(5))]);
                },
            }
        },
        MessageModel::Ping => {
            assert(o =~= seq![("type"@, JsonModel::Num(6))]);
        },
        MessageModel::Close { error } => {
            match error {
                Some(e) => {
                    assert(o =~= seq![
                        ("type"@, JsonModel::Num(7)),
                        ("error"@, JsonModel::Str(e)),
                    ]);
                },
                None => {
                    assert(o =~= seq![("type"@, JsonModel::Num(7))]);
                },
            }
        },
    }
}

/// Round trip: for every encodable message (one whose strings the wire
/// form can carry), decoding its encoded frame yields the message back.
pub proof fn lemma_encode_decode(m: MessageModel)
    requires
        msg_wf(m),
    ensures
        spec_decode(spec_encode_text(m)) == Ok::<MessageModel, DecodeError>(m),
{
    let p = spec_print(msg_json(m));
    let s = spec_encode_text(m);
    assert(s[s.len() - 1] == MESSAGE_TERMINATOR) by {
        assert(s[p.len() as int] == MESSAGE_TERMINATOR);
    }
    assert(strip_terminator(s) =~= p);
    lemma_parse_print_document(msg_json(m));
    lemma_msg_from_json(m);
}

// ---------------------------------------------------------------------------
// The handshake payloads: a distinct shape from the message envelope,
// exchanged once before streaming begins.
// ---------------------------------------------------------------------------

/// A handshake frame: the request names the sub-protocol and version, the
/// response carries an error reason exactly on failure.
#[derive(Debug, PartialEq)]
pub enum Handshake {
    Request { protocol: String, version: u32 },
    Response { error: Option<String> },
}

/// What reading a handshake-response frame yields: `None` when the frame
/// is not a JSON object, otherwise the optional error reason.
pub open spec fn spec_handshake_response(s: Seq<char>) -> Option<Option<Seq<char>>> {
    match spec_parse_document(strip_terminator(s)) {
        Some(JsonModel::Obj(o)) => spec_opt_text(o, "error"@),
        _ => None,
    }
}

/// Reads a handshake response: `{}` is success, `{"error": reason}` is
/// failure with that reason, anything else is refused.
pub fn parse_handshake_response(text: &str) -> (r: Option<Handshake>)
    ensures
        r is None ==> spec_handshake_response(text@) is None,
        r matches Some(h) ==> (h matches Handshake::Response { error }
            && spec_handshake_response(text@) == Some(view_opt_str(error))),
{
    let n = text.unicode_len();
    let body: &str = if n > 0 && text.get_char(n - 1) == MESSAGE_TERMINATOR {
        let b = text.substring_char(0, n - 1);
        proof {
            assert(b@ =~= strip_terminator(text@));
        }
        b
    } else {
        proof {
            assert(text@ == strip_terminator(text@));
        }
        text
    };
    match parse_json(body) {
        Some(JsonValue::Obj(o)) => match read_opt_text(&o, &String::from_str("error")) {
            Ok(error) => Some(Handshake::Response { error }),
            Err(_) => None,
        },
        _ => None,
    }
}

/// The handshake request frame for the JSON sub-protocol, version 1.
pub fn handshake_request_text() -> (r: String)
    ensures
        r@ == "{\"protocol\":\"json\",\"version\":1}\x1e"@,
{
    String::from_str("{\"protocol\":\"json\",\"version\":1}\x1e")
}

// ---------------------------------------------------------------------------
// Negotiation data: plain values read out of the one-time HTTP call that
// precedes the socket connection.
// ---------------------------------------------------------------------------

/// One transport offered by the peer during negotiation.
#[derive(Debug, PartialEq)]
pub struct TransportDefinition {
    pub transport_name: String,
    pub transport_format: Vec<String>,
}

/// The negotiation answer; only `token` is needed to open the socket.
#[derive(Debug, PartialEq)]
pub struct NegotiateRequest {
    pub token: String,
    pub id: String,
    pub negotiate_version: u16,
    pub available_transports: Vec<TransportDefinition>,
}

#[derive(Debug, PartialEq)]
pub struct NegotiateResposne {
    pub protocol: String,
    pub version: u32,
}

/// A flat view of a socket message, kept for callers of the original API.
#[derive(Debug, PartialEq)]
pub struct SocketMessage {
    pub req_type: u32,
    pub target: Option<String>,
    pub arguments: Option<Vec<String>>,
    pub invocation_id: u32,
}

} // verus!
