//! A small JSON document model with a verified printer and parser.
//!
//! The wire format of the protocol is a JSON object per frame, so the
//! crate carries its own JSON subset: null, booleans, unsigned integers,
//! strings (with `\"` and `\\` escapes), arrays and objects.  The printer
//! emits the canonical compact form described by `spec_print`; the parser
//! accepts that form plus insignificant whitespace between tokens and is
//! proved to invert the printer (`lemma_print_parse`).
use vstd::prelude::*;

verus! {

/// Ghost-level JSON document: what a `JsonValue` denotes.
pub ghost enum JsonModel {
    Null,
    Bool(bool),
    Num(nat),
    Str(Seq<char>),
    Arr(Seq<JsonModel>),
    Obj(Seq<(Seq<char>, JsonModel)>),
}

/// Executable JSON document.
#[derive(Debug, PartialEq)]
pub enum JsonValue {
    Null,
    Bool(bool),
    Num(u64),
    Str(String),
    Arr(Vec<JsonValue>),
    Obj(Vec<(String, JsonValue)>),
}

pub open spec fn jv_model(v: JsonValue) -> JsonModel
    decreases v, 0int,
{
    match v {
        JsonValue::Null => JsonModel::Null,
        JsonValue::Bool(b) => JsonModel::Bool(b),
        JsonValue::Num(n) => JsonModel::Num(n as nat),
        JsonValue::Str(s) => JsonModel::Str(s@),
        JsonValue::Arr(a) => JsonModel::Arr(jv_model_seq(a@)),
        JsonValue::Obj(o) => JsonModel::Obj(jv_model_members(o@)),
    }
}

pub open spec fn jv_model_seq(a: Seq<JsonValue>) -> Seq<JsonModel>
    decreases a, 1int,
{
    if a.len() == 0 {
        Seq::empty()
    } else {
        jv_model_seq(a.drop_last()).push(jv_model(a[a.len() - 1]))
    }
}

pub open spec fn jv_model_members(o: Seq<(String, JsonValue)>) -> Seq<(Seq<char>, JsonModel)>
    decreases o, 1int,
{
    if o.len() == 0 {
        Seq::empty()
    } else {
        jv_model_members(o.drop_last()).push((o[o.len() - 1].0@, jv_model(o[o.len() - 1].1)))
    }
}

impl View for JsonValue {
    type V = JsonModel;

    open spec fn view(&self) -> JsonModel {
        jv_model(*self)
    }
}

pub proof fn lemma_jv_model_seq(a: Seq<JsonValue>)
    ensures
        jv_model_seq(a).len() == a.len(),
        forall|k: int| 0 <= k < a.len() ==> jv_model_seq(a)[k] == jv_model(a[k]),
    decreases a.len(),
{
    if a.len() > 0 {
        lemma_jv_model_seq(a.drop_last());
    }
}

pub proof fn lemma_jv_model_members(o: Seq<(String, JsonValue)>)
    ensures
        jv_model_members(o).len() == o.len(),
        forall|k: int|
            0 <= k < o.len() ==> jv_model_members(o)[k] == (o[k].0@, jv_model(o[k].1)),
    decreases o.len(),
{
    if o.len() > 0 {
        lemma_jv_model_members(o.drop_last());
    }
}

// ---------------------------------------------------------------------------
// Well-formedness: strings carried by a document hold no control characters,
// and numbers fit the executable representation.  Only such documents have a
// printed form.
// ---------------------------------------------------------------------------

pub open spec fn wf_str(s: Seq<char>) -> bool {
    forall|k: int| 0 <= k < s.len() ==> (s[k] as u32) >= 0x20
}

pub open spec fn wf_json(m: JsonModel) -> bool
    decreases m,
{
    match m {
        JsonModel::Null => true,
        JsonModel::Bool(_) => true,
        JsonModel::Num(n) => n <= u64::MAX,
        JsonModel::Str(s) => wf_str(s),
        JsonModel::Arr(a) => wf_items_from(a, 0),
        JsonModel::Obj(o) => wf_members_from(o, 0),
    }
}

pub open spec fn wf_items_from(a: Seq<JsonModel>, i: int) -> bool
    decreases a, 1int,
{
    forall|k: int| 0 <= k && i <= k < a.len() ==> wf_json(#[trigger] a[k])
}

pub open spec fn wf_members_from(o: Seq<(Seq<char>, JsonModel)>, i: int) -> bool
    decreases o, 1int,
{
    forall|k: int| 0 <= k && i <= k < o.len() ==> wf_str((#[trigger] o[k]).0) && wf_json(o[k].1)
}

// ---------------------------------------------------------------------------
// The canonical printed form.
// ---------------------------------------------------------------------------

pub open spec fn spec_digit(d: nat) -> char {
    if d == 0 {
        '0'
    } else if d == 1 {
        '1'
    } else if d == 2 {
        '2'
    } else if d == 3 {
        '3'
    } else if d == 4 {
        '4'
    } else if d == 5 {
        '5'
    } else if d == 6 {
        '6'
    } else if d == 7 {
        '7'
    } else if d == 8 {
        '8'
    } else {
        '9'
    }
}

pub open spec fn spec_digits(n: nat) -> Seq<char>
    decreases n,
{
    if n < 10 {
        seq![spec_digit(n)]
    } else {
        spec_digits(n / 10).push(spec_digit(n % 10))
    }
}

pub open spec fn spec_escape_char(c: char) -> Seq<char> {
    if c == '"' || c == '\\' {
        seq!['\\', c]
    } else {
        seq![c]
    }
}

/// The escaped form of `s` from index `i` on.
pub open spec fn spec_escape(s: Seq<char>, i: int) -> Seq<char>
    decreases s.len() - i,
{
    if i < 0 || i >= s.len() {
        Seq::empty()
    } else {
        spec_escape_char(s[i]) + spec_escape(s, i + 1)
    }
}

pub open spec fn spec_print(m: JsonModel) -> Seq<char>
    decreases m, 0int,
{
    match m {
        JsonModel::Null => seq!['n', 'u', 'l', 'l'],
        JsonModel::Bool(b) => if b {
            seq!['t', 'r', 'u', 'e']
        } else {
            seq!['f', 'a', 'l', 's', 'e']
        },
        JsonModel::Num(n) => spec_digits(n),
        JsonModel::Str(s) => seq!['"'] + spec_escape(s, 0) + seq!['"'],
        JsonModel::Arr(a) => if a.len() == 0 {
            seq!['[', ']']
        } else {
            seq!['['] + spec_print_items(a, 0) + seq![']']
        },
        JsonModel::Obj(o) => if o.len() == 0 {
            seq!['{', '}']
        } else {
            seq!['{'] + spec_print_members(o, 0) + seq!['}']
        },
    }
}

pub open spec fn spec_print_items(a: Seq<JsonModel>, i: int) -> Seq<char>
    decreases a, a.len() - i,
{
    if i < 0 || i >= a.len() {
        Seq::empty()
    } else if i == a.len() - 1 {
        spec_print(a[i])
    } else {
        spec_print(a[i]) + seq![','] + spec_print_items(a, i + 1)
    }
}

pub open spec fn spec_print_members(o: Seq<(Seq<char>, JsonModel)>, i: int) -> Seq<char>
    decreases o, o.len() - i,
{
    if i < 0 || i >= o.len() {
        Seq::empty()
    } else {
        let piece = seq!['"'] + spec_escape(o[i].0, 0) + seq!['"', ':'] + spec_print(o[i].1);
        if i == o.len() - 1 {
            piece
        } else {
            piece + seq![','] + spec_print_members(o, i + 1)
        }
    }
}

// ---------------------------------------------------------------------------
// Executable printer.
// ---------------------------------------------------------------------------

/// Relies on `String::push`: appends one character to the end of the string.
#[verifier::external_body]
pub(crate) fn push_char(out: &mut String, c: char)
    ensures
        final(out)@ == old(out)@ + seq![c],
{
    out.push(c);
}

fn digit_char(d: u64) -> (r: char)
    requires
        d < 10,
    ensures
        r == spec_digit(d as nat),
{
    if d == 0 {
        '0'
    } else if d == 1 {
        '1'
    } else if d == 2 {
        '2'
    } else if d == 3 {
        '3'
    } else if d == 4 {
        '4'
    } else if d == 5 {
        '5'
    } else if d == 6 {
        '6'
    } else if d == 7 {
        '7'
    } else if d == 8 {
        '8'
    } else {
        '9'
    }
}

fn write_digits(out: &mut String, n: u64)
    ensures
        final(out)@ == old(out)@ + spec_digits(n as nat),
    decreases n,
{
    if n < 10 {
        push_char(out, digit_char(n));
    } else {
        assert(n as nat / 10 < n as nat) by (nonlinear_arith)
            requires n >= 10;
        assert(n / 10 == n as nat / 10);
        write_digits(out, n / 10);
        push_char(out, digit_char(n % 10));
        assert(out@ =~= old(out)@ + spec_digits(n as nat));
    }
}

fn write_escaped(s: &str, i: usize, n: usize, out: &mut String)
    requires
        n == s@.len(),
        i <= n,
    ensures
        final(out)@ == old(out)@ + spec_escape(s@, i as int),
    decreases n - i,
{
    if i < n {
        let c = s.get_char(i);
        if c == '"' || c == '\\' {
            push_char(out, '\\');
            push_char(out, c);
        } else {
            push_char(out, c);
        }
        write_escaped(s, i + 1, n, out);
        assert(out@ =~= old(out)@ + spec_escape(s@, i as int));
    } else {
        assert(out@ =~= old(out)@ + spec_escape(s@, i as int));
    }
}

fn write_string(s: &str, out: &mut String)
    ensures
        final(out)@ == old(out)@ + seq!['"'] + spec_escape(s@, 0) + seq!['"'],
{
    let n = s.unicode_len();
    push_char(out, '"');
    write_escaped(s, 0, n, out);
    push_char(out, '"');
}

/// Appends the canonical printed form of `v` to `out`.
fn write_json(v: &JsonValue, out: &mut String)
    ensures
        final(out)@ == old(out)@ + spec_print(v@),
    decreases v, 0int,
{
    match v {
        JsonValue::Null => {
            push_char(out, 'n');
            push_char(out, 'u');
            push_char(out, 'l');
            push_char(out, 'l');
            assert(out@ =~= old(out)@ + spec_print(v@));
        },
        JsonValue::Bool(b) => {
            if *b {
                push_char(out, 't');
                push_char(out, 'r');
                push_char(out, 'u');
                push_char(out, 'e');
            } else {
                push_char(out, 'f');
                push_char(out, 'a');
                push_char(out, 'l');
                push_char(out, 's');
                push_char(out, 'e');
            }
            assert(out@ =~= old(out)@ + spec_print(v@));
        },
        JsonValue::Num(n) => {
            write_digits(out, *n);
        },
        JsonValue::Str(s) => {
            write_string(s.as_str(), out);
            assert(out@ =~= old(out)@ + spec_print(v@));
        },
        JsonValue::Arr(a) => {
            push_char(out, '[');
            if a.len() == 0 {
                push_char(out, ']');
                assert(jv_model_seq(a@) =~= Seq::<JsonModel>::empty());
                assert(out@ =~= old(out)@ + spec_print(v@));
            } else {
                proof {
                    lemma_jv_model_seq(a@);
                }
                write_items(a, 0, out);
                push_char(out, ']');
                assert(out@ =~= old(out)@ + spec_print(v@));
            }
        },
        JsonValue::Obj(o) => {
            push_char(out, '{');
            if o.len() == 0 {
                push_char(out, '}');
                assert(jv_model_members(o@) =~= Seq::<(Seq<char>, JsonModel)>::empty());
                assert(out@ =~= old(out)@ + spec_print(v@));
            } else {
                proof {
                    lemma_jv_model_members(o@);
                }
                write_members(o, 0, out);
                push_char(out, '}');
                assert(out@ =~= old(out)@ + spec_print(v@));
            }
        },
    }
}

fn write_items(a: &Vec<JsonValue>, i: usize, out: &mut String)
    requires
        i < a@.len(),
    ensures
        final(out)@ == old(out)@ + spec_print_items(jv_model_seq(a@), i as int),
    decreases a, a@.len() - i,
{
    proof {
        lemma_jv_model_seq(a@);
    }
    let n = a.len();
    write_json(&a[i], out);
    if i + 1 < n {
        push_char(out, ',');
        write_items(a, i + 1, out);
        assert(out@ =~= old(out)@ + spec_print_items(jv_model_seq(a@), i as int));
    } else {
        assert(out@ =~= old(out)@ + spec_print_items(jv_model_seq(a@), i as int));
    }
}

fn write_members(o: &Vec<(String, JsonValue)>, i: usize, out: &mut String)
    requires
        i < o@.len(),
    ensures
        final(out)@ == old(out)@ + spec_print_members(jv_model_members(o@), i as int),
    decreases o, o@.len() - i,
{
    proof {
        lemma_jv_model_members(o@);
    }
    let n = o.len();
    write_string(o[i].0.as_str(), out);
    push_char(out, ':');
    write_json(&o[i].1, out);
    if i + 1 < n {
        push_char(out, ',');
        write_members(o, i + 1, out);
        assert(out@ =~= old(out)@ + spec_print_members(jv_model_members(o@), i as int));
    } else {
        assert(out@ =~= old(out)@ + spec_print_members(jv_model_members(o@), i as int));
    }
}

// ---------------------------------------------------------------------------
// Executable well-formedness check.
// ---------------------------------------------------------------------------

pub open spec fn wf_str_from(s: Seq<char>, i: int) -> bool {
    forall|k: int| i <= k < s.len() ==> (s[k] as u32) >= 0x20
}

fn str_wf_from(s: &str, i: usize, n: usize) -> (r: bool)
    requires
        n == s@.len(),
        i <= n,
    ensures
        r == wf_str_from(s@, i as int),
    decreases n - i,
{
    if i == n {
        true
    } else {
        let c = s.get_char(i);
        if (c as u32) < 0x20 {
            assert(!wf_str_from(s@, i as int));
            false
        } else {
            let rest = str_wf_from(s, i + 1, n);
            proof {
                if rest {
                    assert forall|k: int| i <= k < s@.len() implies (s@[k] as u32) >= 0x20 by {
                        if k > i {
                            assert(wf_str_from(s@, i as int + 1));
                        }
                    }
                }
            }
            rest
        }
    }
}

fn str_wf(s: &str) -> (r: bool)
    ensures
        r == wf_str(s@),
{
    let n = s.unicode_len();
    str_wf_from(s, 0, n)
}

/// Whether `v` denotes a well-formed document, i.e. one the printer accepts.
pub fn json_wf(v: &JsonValue) -> (r: bool)
    ensures
        r == wf_json(v@),
    decreases v, 0int,
{
    match v {
        JsonValue::Null => {
            assert(wf_json(v@));
            true
        },
        JsonValue::Bool(_) => true,
        JsonValue::Num(_) => true,
        JsonValue::Str(s) => {
            let r = str_wf(s.as_str());
            assert(r == wf_json(v@));
            r
        },
        JsonValue::Arr(a) => {
            proof {
                lemma_jv_model_seq(a@);
            }
            let r = items_wf(a, 0);
            assert(r == wf_json(v@));
            r
        },
        JsonValue::Obj(o) => {
            proof {
                lemma_jv_model_members(o@);
            }
            let r = members_wf(o, 0);
            assert(r == wf_json(v@));
            r
        },
    }
}

fn items_wf(a: &Vec<JsonValue>, i: usize) -> (r: bool)
    requires
        i <= a@.len(),
    ensures
        r == wf_items_from(jv_model_seq(a@), i as int),
    decreases a, a@.len() - i,
{
    proof {
        lemma_jv_model_seq(a@);
    }
    let ghost ms = jv_model_seq(a@);
    if i == a.len() {
        true
    } else {
        let h = json_wf(&a[i]);
        if !h {
            assert(!wf_items_from(ms, i as int)) by {
                assert(!wf_json(ms[i as int]));
            }
            false
        } else {
            let rest = items_wf(a, i + 1);
            proof {
                if rest {
                    assert forall|k: int| i <= k < ms.len() implies wf_json(#[trigger] ms[k]) by {
                        if k > i {
                            assert(wf_items_from(ms, i as int + 1));
                        } else {
                            assert(ms[k] == jv_model(a@[k]));
                        }
                    }
                } else {
                    assert(!wf_items_from(ms, i as int)) by {
                        let k0 = choose|k: int|
                            i + 1 <= k < ms.len() && !wf_json(#[trigger] ms[k]);
                        assert(!wf_json(ms[k0]));
                    }
                }
            }
            rest
        }
    }
}

fn members_wf(o: &Vec<(String, JsonValue)>, i: usize) -> (r: bool)
    requires
        i <= o@.len(),
    ensures
        r == wf_members_from(jv_model_members(o@), i as int),
    decreases o, o@.len() - i,
{
    proof {
        lemma_jv_model_members(o@);
    }
    let ghost ms = jv_model_members(o@);
    if i == o.len() {
        true
    } else {
        let hk = str_wf(o[i].0.as_str());
        if !hk {
            assert(!wf_members_from(ms, i as int)) by {
                assert(!wf_str(ms[i as int].0));
            }
            false
        } else {
            let hv = json_wf(&o[i].1);
            if !hv {
                assert(!wf_members_from(ms, i as int)) by {
                    assert(!wf_json(ms[i as int].1));
                }
                false
            } else {
                let rest = members_wf(o, i + 1);
                proof {
                    if rest {
                        assert forall|k: int|
                            i <= k < ms.len() implies wf_str((#[trigger] ms[k]).0) && wf_json(
                            ms[k].1,
                        ) by {
                            if k > i {
                                assert(wf_members_from(ms, i as int + 1));
                            } else {
                                assert(ms[k] == (o@[k].0@, jv_model(o@[k].1)));
                            }
                        }
                    } else {
                        assert(!wf_members_from(ms, i as int)) by {
                            let k0 = choose|k: int|
                                i + 1 <= k < ms.len() && !(wf_str((#[trigger] ms[k]).0)
                                    && wf_json(ms[k].1));
                            assert(!(wf_str(ms[k0].0) && wf_json(ms[k0].1)));
                        }
                    }
                }
                rest
            }
        }
    }
}

/// Prints `v` in the canonical compact form, when `v` is well formed;
/// a document holding a control character has no printed form.
pub fn json_to_text(v: &JsonValue) -> (r: Option<String>)
    ensures
        r matches Some(t) ==> wf_json(v@) && t@ == spec_print(v@),
        r is None ==> !wf_json(v@),
{
    if json_wf(v) {
        let mut out = String::new();
        write_json(v, &mut out);
        Some(out)
    } else {
        None
    }
}

// ---------------------------------------------------------------------------
// The parser: the grammar accepted on the wire.  It reads the canonical
// printed form plus insignificant whitespace between tokens.
// ---------------------------------------------------------------------------

pub open spec fn spec_ws(c: char) -> bool {
    c == ' ' || c == '\n' || c == '\r' || c == '\t'
}

pub open spec fn spec_skip_ws(s: Seq<char>, i: int) -> int
    decreases s.len() - i,
{
    if 0 <= i < s.len() && spec_ws(s[i]) {
        spec_skip_ws(s, i + 1)
    } else {
        i
    }
}

pub open spec fn is_digit_char(c: char) -> bool {
    48 <= (c as u32) <= 57
}

pub open spec fn digit_val(c: char) -> nat {
    ((c as u32) - 48) as nat
}

/// Reads a run of digits starting at `i`, extending the already-read value
/// `acc`; yields the value and the position after the run.
pub open spec fn spec_parse_digits(s: Seq<char>, i: int, acc: nat) -> (nat, int)
    decreases s.len() - i,
{
    if 0 <= i < s.len() && is_digit_char(s[i]) {
        spec_parse_digits(s, i + 1, acc * 10 + digit_val(s[i]))
    } else {
        (acc, i)
    }
}

pub proof fn lemma_parse_digits_ge(s: Seq<char>, i: int, acc: nat)
    ensures
        spec_parse_digits(s, i, acc).0 >= acc,
        spec_parse_digits(s, i, acc).1 >= i,
    decreases s.len() - i,
{
    if 0 <= i < s.len() && is_digit_char(s[i]) {
        lemma_parse_digits_ge(s, i + 1, acc * 10 + digit_val(s[i]));
    }
}

/// Reads the body of a string literal (the opening quote already consumed)
/// up to and including the closing quote.  Only the escapes `\"` and `\\`
/// are recognized, and raw control characters are refused.
pub open spec fn spec_parse_string_chars(s: Seq<char>, i: int) -> Option<(Seq<char>, int)>
    decreases s.len() - i,
{
    if !(0 <= i < s.len()) {
        None
    } else {
        let c = s[i];
        if c == '"' {
            Some((Seq::empty(), i + 1))
        } else if c == '\\' {
            if i + 1 < s.len() && (s[i + 1] == '"' || s[i + 1] == '\\') {
                match spec_parse_string_chars(s, i + 2) {
                    Some((t, j)) => Some((seq![s[i + 1]] + t, j)),
                    None => None,
                }
            } else {
                None
            }
        } else if (c as u32) < 0x20 {
            None
        } else {
            match spec_parse_string_chars(s, i + 1) {
                Some((t, j)) => Some((seq![c] + t, j)),
                None => None,
            }
        }
    }
}

/// Reads one JSON value starting exactly at `i` (no leading whitespace).
pub open spec fn spec_parse_value(s: Seq<char>, i: int) -> Option<(JsonModel, int)>
    decreases s.len() - i, 0int,
{
    if !(0 <= i < s.len()) {
        None
    } else {
        let c = s[i];
        if c == 'n' {
            if i + 4 <= s.len() && s[i + 1] == 'u' && s[i + 2] == 'l' && s[i + 3] == 'l' {
                Some((JsonModel::Null, i + 4))
            } else {
                None
            }
        } else if c == 't' {
            if i + 4 <= s.len() && s[i + 1] == 'r' && s[i + 2] == 'u' && s[i + 3] == 'e' {
                Some((JsonModel::Bool(true), i + 4))
            } else {
                None
            }
        } else if c == 'f' {
            if i + 5 <= s.len() && s[i + 1] == 'a' && s[i + 2] == 'l' && s[i + 3] == 's'
                && s[i + 4] == 'e' {
                Some((JsonModel::Bool(false), i + 5))
            } else {
                None
            }
        } else if c == '"' {
            match spec_parse_string_chars(s, i + 1) {
                Some((t, j)) => Some((JsonModel::Str(t), j)),
                None => None,
            }
        } else if is_digit_char(c) {
            let (v, j) = spec_parse_digits(s, i, 0);
            if v > u64::MAX {
                None
            } else {
                Some((JsonModel::Num(v), j))
            }
        } else if c == '[' {
            let j = spec_skip_ws(s, i + 1);
            if j < s.len() && s[j] == ']' {
                Some((JsonModel::Arr(Seq::empty()), j + 1))
            } else if j <= i || j > s.len() {
                None
            } else {
                match spec_parse_items(s, j) {
                    Some((elems, k)) => Some((JsonModel::Arr(elems), k)),
                    None => None,
                }
            }
        } else if c == '{' {
            let j = spec_skip_ws(s, i + 1);
            if j < s.len() && s[j] == '}' {
                Some((JsonModel::Obj(Seq::empty()), j + 1))
            } else if j <= i || j > s.len() {
                None
            } else {
                match spec_parse_members(s, j) {
                    Some((membs, k)) => Some((JsonModel::Obj(membs), k)),
                    None => None,
                }
            }
        } else {
            None
        }
    }
}

/// Reads the elements of a non-empty array, the opening bracket and any
/// following whitespace already consumed; ends on the closing bracket.
pub open spec fn spec_parse_items(s: Seq<char>, i: int) -> Option<(Seq<JsonModel>, int)>
    decreases s.len() - i, 1int,
{
    match spec_parse_value(s, i) {
        None => None,
        Some((v, j)) => {
            if j <= i || j > s.len() {
                None
            } else {
                let k = spec_skip_ws(s, j);
                if k < s.len() && s[k] == ',' {
                    let m = spec_skip_ws(s, k + 1);
                    if m <= i || m > s.len() {
                        None
                    } else {
                        match spec_parse_items(s, m) {
                            Some((rest, p)) => Some((seq![v] + rest, p)),
                            None => None,
                        }
                    }
                } else if k < s.len() && s[k] == ']' {
                    Some((seq![v], k + 1))
                } else {
                    None
                }
            }
        },
    }
}

/// Reads the members of a non-empty object, the opening brace and any
/// following whitespace already consumed; ends on the closing brace.
pub open spec fn spec_parse_members(s: Seq<char>, i: int) -> Option<
    (Seq<(Seq<char>, JsonModel)>, int),
>
    decreases s.len() - i, 1int,
{
    if !(0 <= i < s.len() && s[i] == '"') {
        None
    } else {
        match spec_parse_string_chars(s, i + 1) {
            None => None,
            Some((key, j)) => {
                let k = spec_skip_ws(s, j);
                if !(k < s.len() && s[k] == ':') {
                    None
                } else {
                    let m = spec_skip_ws(s, k + 1);
                    if m < i || m > s.len() {
                        None
                    } else {
                        match spec_parse_value(s, m) {
                            None => None,
                            Some((v, p)) => {
                                if p <= i || p > s.len() {
                                    None
                                } else {
                                    let q = spec_skip_ws(s, p);
                                    if q < s.len() && s[q] == ',' {
                                        let w = spec_skip_ws(s, q + 1);
                                        if w <= i || w > s.len() {
                                            None
                                        } else {
                                            match spec_parse_members(s, w) {
                                                Some((rest, z)) => Some(
                                                    (seq![(key, v)] + rest, z),
                                                ),
                                                None => None,
                                            }
                                        }
                                    } else if q < s.len() && s[q] == '}' {
                                        Some((seq![(key, v)], q + 1))
                                    } else {
                                        None
                                    }
                                }
                            },
                        }
                    }
                }
            },
        }
    }
}

/// Reads a whole frame: one value, optionally surrounded by whitespace,
/// reaching the end of the input.
pub open spec fn spec_parse_document(s: Seq<char>) -> Option<JsonModel> {
    match spec_parse_value(s, spec_skip_ws(s, 0)) {
        None => None,
        Some((v, j)) => if spec_skip_ws(s, j) == s.len() {
            Some(v)
        } else {
            None
        },
    }
}

// ---------------------------------------------------------------------------
// Executable parser.
// ---------------------------------------------------------------------------

fn skip_ws(s: &str, i: usize, n: usize) -> (r: usize)
    requires
        n == s@.len(),
        i <= n,
    ensures
        r == spec_skip_ws(s@, i as int),
        i <= r <= n,
    decreases n - i,
{
    if i < n {
        let c = s.get_char(i);
        if c == ' ' || c == '\n' || c == '\r' || c == '\t' {
            skip_ws(s, i + 1, n)
        } else {
            i
        }
    } else {
        i
    }
}

fn parse_digits(s: &str, i: usize, n: usize, acc: u64) -> (r: Option<(u64, usize)>)
    requires
        n == s@.len(),
        i <= n,
    ensures
        r is None ==> spec_parse_digits(s@, i as int, acc as nat).0 > u64::MAX,
        r matches Some(p) ==> spec_parse_digits(s@, i as int, acc as nat) == (
            p.0 as nat,
            p.1 as int,
        ) && i <= p.1 <= n,
    decreases n - i,
{
    if i < n {
        let c = s.get_char(i);
        let cv = c as u32;
        if 48 <= cv && cv <= 57 {
            let d = (cv - 48) as u64;
            if acc > 1844674407370955161u64 || (acc == 1844674407370955161u64 && d > 5) {
                proof {
                    lemma_parse_digits_ge(s@, i as int + 1, (acc as nat) * 10 + d as nat);
                }
                None
            } else {
                parse_digits(s, i + 1, n, acc * 10 + d)
            }
        } else {
            Some((acc, i))
        }
    } else {
        Some((acc, i))
    }
}

fn parse_string_chars(s: &str, i: usize, n: usize, out: &mut String) -> (r: Option<usize>)
    requires
        n == s@.len(),
        i <= n,
    ensures
        r is None ==> spec_parse_string_chars(s@, i as int) is None,
        r matches Some(j) ==> (spec_parse_string_chars(s@, i as int) matches Some(p)
            && final(out)@ == old(out)@ + p.0 && j == p.1 && i < j <= n),
    decreases n - i,
{
    if i >= n {
        return None;
    }
    let c = s.get_char(i);
    if c == '"' {
        proof {
            assert(out@ =~= out@ + Seq::<char>::empty());
        }
        Some(i + 1)
    } else if c == '\\' {
        if i + 1 < n {
            let e = s.get_char(i + 1);
            if e == '"' || e == '\\' {
                push_char(out, e);
                let r2 = parse_string_chars(s, i + 2, n, out);
                match r2 {
                    Some(j) => {
                        proof {
                            let p = spec_parse_string_chars(s@, i as int).unwrap();
                            assert(out@ =~= old(out)@ + p.0);
                        }
                        Some(j)
                    },
                    None => None,
                }
            } else {
                None
            }
        } else {
            None
        }
    } else if (c as u32) < 0x20 {
        None
    } else {
        push_char(out, c);
        let r2 = parse_string_chars(s, i + 1, n, out);
        match r2 {
            Some(j) => {
                proof {
                    let p = spec_parse_string_chars(s@, i as int).unwrap();
                    assert(out@ =~= old(out)@ + p.0);
                }
                Some(j)
            },
            None => None,
        }
    }
}

fn parse_value(s: &str, i: usize, n: usize) -> (r: Option<(JsonValue, usize)>)
    requires
        n == s@.len(),
        i <= n,
    ensures
        r is None ==> spec_parse_value(s@, i as int) is None,
        r matches Some(p) ==> spec_parse_value(s@, i as int) == Some((p.0@, p.1 as int)) && i
            < p.1 <= n,
    decreases n - i, 0int,
{
    if i >= n {
        return None;
    }
    let c = s.get_char(i);
    if c == 'n' {
        if n - i >= 4 && s.get_char(i + 1) == 'u' && s.get_char(i + 2) == 'l' && s.get_char(i + 3)
            == 'l' {
            Some((JsonValue::Null, i + 4))
        } else {
            None
        }
    } else if c == 't' {
        if n - i >= 4 && s.get_char(i + 1) == 'r' && s.get_char(i + 2) == 'u' && s.get_char(i + 3)
            == 'e' {
            Some((JsonValue::Bool(true), i + 4))
        } else {
            None
        }
    } else if c == 'f' {
        if n - i >= 5 && s.get_char(i + 1) == 'a' && s.get_char(i + 2) == 'l' && s.get_char(i + 3)
            == 's' && s.get_char(i + 4) == 'e' {
            Some((JsonValue::Bool(false), i + 5))
        } else {
            None
        }
    } else if c == '"' {
        let mut lit = String::new();
        match parse_string_chars(s, i + 1, n, &mut lit) {
            Some(j) => Some((JsonValue::Str(lit), j)),
            None => None,
        }
    } else if {
        let cv = c as u32;
        48 <= cv && cv <= 57
    } {
        match parse_digits(s, i, n, 0) {
            Some((v, j)) => {
                proof {
                    lemma_parse_digits_ge(s@, i as int + 1, digit_val(s@[i as int]));
                }
                assert(j > i);
                Some((JsonValue::Num(v), j))
            },
            None => None,
        }
    } else if c == '[' {
        let j = skip_ws(s, i + 1, n);
        if j < n && s.get_char(j) == ']' {
            proof {
                assert(jv_model_seq(Seq::<JsonValue>::empty()) =~= Seq::<JsonModel>::empty());
            }
            Some((JsonValue::Arr(Vec::new()), j + 1))
        } else {
            match parse_items(s, j, n) {
                Some((vec, k)) => Some((JsonValue::Arr(vec), k)),
                None => None,
            }
        }
    } else if c == '{' {
        let j = skip_ws(s, i + 1, n);
        if j < n && s.get_char(j) == '}' {
            proof {
                assert(jv_model_members(Seq::<(String, JsonValue)>::empty())
                    =~= Seq::<(Seq<char>, JsonModel)>::empty());
            }
            Some((JsonValue::Obj(Vec::new()), j + 1))
        } else {
            match parse_members(s, j, n) {
                Some((vec, k)) => Some((JsonValue::Obj(vec), k)),
                None => None,
            }
        }
    } else {
        None
    }
}

fn parse_items(s: &str, i: usize, n: usize) -> (r: Option<(Vec<JsonValue>, usize)>)
    requires
        n == s@.len(),
        i <= n,
    ensures
        r is None ==> spec_parse_items(s@, i as int) is None,
        r matches Some(p) ==> spec_parse_items(s@, i as int) == Some(
            (jv_model_seq(p.0@), p.1 as int),
        ) && i < p.1 <= n,
    decreases n - i, 1int,
{
    match parse_value(s, i, n) {
        None => None,
        Some((v, j)) => {
            let k = skip_ws(s, j, n);
            if k < n && s.get_char(k) == ',' {
                let m = skip_ws(s, k + 1, n);
                match parse_items(s, m, n) {
                    Some((rest, p)) => {
                        let ghost r0 = rest@;
                        let mut rest = rest;
                        rest.insert(0, v);
                        proof {
                            lemma_jv_model_seq(r0);
                            lemma_jv_model_seq(rest@);
                            assert(rest@ =~= seq![v] + r0);
                            assert forall|x: int| 0 <= x < rest@.len() implies jv_model_seq(
                                rest@,
                            )[x] == (seq![jv_model(v)] + jv_model_seq(r0))[x] by {
                                if x > 0 {
                                    assert(rest@[x] == r0[x - 1]);
                                }
                            }
                            assert(jv_model_seq(rest@) =~= seq![jv_model(v)] + jv_model_seq(r0));
                        }
                        Some((rest, p))
                    },
                    None => None,
                }
            } else if k < n && s.get_char(k) == ']' {
                let mut vec: Vec<JsonValue> = Vec::new();
                let ghost vm = jv_model(v);
                vec.push(v);
                proof {
                    lemma_jv_model_seq(vec@);
                    assert(jv_model_seq(vec@) =~= seq![vm]);
                }
                Some((vec, k + 1))
            } else {
                None
            }
        },
    }
}

fn parse_members(s: &str, i: usize, n: usize) -> (r: Option<(Vec<(String, JsonValue)>, usize)>)
    requires
        n == s@.len(),
        i <= n,
    ensures
        r is None ==> spec_parse_members(s@, i as int) is None,
        r matches Some(p) ==> spec_parse_members(s@, i as int) == Some(
            (jv_model_members(p.0@), p.1 as int),
        ) && i < p.1 <= n,
    decreases n - i, 1int,
{
    if i >= n {
        return None;
    }
    if s.get_char(i) != '"' {
        return None;
    }
    let mut key = String::new();
    match parse_string_chars(s, i + 1, n, &mut key) {
        None => None,
        Some(j) => {
            let k = skip_ws(s, j, n);
            if !(k < n) {
                return None;
            }
            if s.get_char(k) != ':' {
                return None;
            }
            let m = skip_ws(s, k + 1, n);
            match parse_value(s, m, n) {
                None => None,
                Some((v, p)) => {
                    let q = skip_ws(s, p, n);
                    if q < n && s.get_char(q) == ',' {
                        let w = skip_ws(s, q + 1, n);
                        match parse_members(s, w, n) {
                            Some((rest, z)) => {
                                let ghost r0 = rest@;
                                let ghost kv = (key@, jv_model(v));
                                let mut rest = rest;
                                rest.insert(0, (key, v));
                                proof {
                                    lemma_jv_model_members(r0);
                                    lemma_jv_model_members(rest@);
                                    assert forall|x: int|
                                        0 <= x < rest@.len() implies jv_model_members(rest@)[x]
                                        == (seq![kv] + jv_model_members(r0))[x] by {
                                        if x > 0 {
                                            assert(rest@[x] == r0[x - 1]);
                                        }
                                    }
                                    assert(jv_model_members(rest@) =~= seq![kv]
                                        + jv_model_members(r0));
                                }
                                Some((rest, z))
                            },
                            None => None,
                        }
                    } else if q < n && s.get_char(q) == '}' {
                        let mut vec: Vec<(String, JsonValue)> = Vec::new();
                        let ghost kv = (key@, jv_model(v));
                        vec.push((key, v));
                        proof {
                            lemma_jv_model_members(vec@);
                            assert(jv_model_members(vec@) =~= seq![kv]);
                        }
                        Some((vec, q + 1))
                    } else {
                        None
                    }
                },
            }
        },
    }
}

/// Parses a whole frame: one JSON value, optionally surrounded by
/// whitespace, reaching the end of the input.
pub fn parse_json(s: &str) -> (r: Option<JsonValue>)
    ensures
        r is None ==> spec_parse_document(s@) is None,
        r matches Some(v) ==> spec_parse_document(s@) == Some(v@),
{
    let n = s.unicode_len();
    let i = skip_ws(s, 0, n);
    match parse_value(s, i, n) {
        None => None,
        Some((v, j)) => {
            let k = skip_ws(s, j, n);
            if k == n {
                Some(v)
            } else {
                None
            }
        },
    }
}

// ---------------------------------------------------------------------------
// The parser inverts the printer: parsing the printed form of a well-formed
// document yields the document back.
// ---------------------------------------------------------------------------

/// The characters on which `spec_parse_value` can start a value.
pub open spec fn opens_value(c: char) -> bool {
    c == 'n' || c == 't' || c == 'f' || c == '"' || is_digit_char(c) || c == '[' || c == '{'
}

proof fn lemma_digits_shape(n: nat)
    ensures
        spec_digits(n).len() >= 1,
        forall|k: int| 0 <= k < spec_digits(n).len() ==> is_digit_char(#[trigger] spec_digits(n)[k]),
    decreases n,
{
    if n < 10 {
        assert(is_digit_char(spec_digit(n)));
        assert(spec_digits(n)[0] == spec_digit(n));
    } else {
        assert(n / 10 < n) by (nonlinear_arith)
            requires n >= 10;
        lemma_digits_shape(n / 10);
        assert(n % 10 < 10);
        assert(is_digit_char(spec_digit(n % 10)));
        assert forall|k: int| 0 <= k < spec_digits(n).len() implies is_digit_char(
            #[trigger] spec_digits(n)[k],
        ) by {
            if k < spec_digits(n / 10).len() {
                assert(spec_digits(n)[k] == spec_digits(n / 10)[k]);
            } else {
                assert(spec_digits(n)[k] == spec_digit(n % 10));
            }
        }
    }
}

/// A value's printed form is non-empty and starts with an opening character.
proof fn lemma_print_shape(m: JsonModel)
    requires
        wf_json(m),
    ensures
        spec_print(m).len() >= 1,
        opens_value(spec_print(m)[0]),
    decreases m,
{
    match m {
        JsonModel::Null => {},
        JsonModel::Bool(_) => {},
        JsonModel::Num(n) => {
            lemma_digits_shape(n);
        },
        JsonModel::Str(_) => {},
        JsonModel::Arr(_) => {},
        JsonModel::Obj(_) => {},
    }
}

/// No opening character is whitespace, a closing delimiter, a comma, a
/// colon, or the frame terminator.
proof fn lemma_opens_not_delim(c: char)
    requires
        opens_value(c),
    ensures
        !spec_ws(c),
        c != ']',
        c != '}',
        c != ',',
        c != ':',
        c != '\x1e',
{
    if is_digit_char(c) {
        assert((']' as u32) == 93);
        assert(('}' as u32) == 125);
        assert((',' as u32) == 44);
        assert((':' as u32) == 58);
        assert((' ' as u32) == 32);
        assert(('\n' as u32) == 10);
        assert(('\r' as u32) == 13);
        assert(('\t' as u32) == 9);
        assert(('\x1e' as u32) == 30);
    }
}

/// Left fold of a digit run onto an already-read value.
pub open spec fn digits_fold(acc: nat, ds: Seq<char>) -> nat
    decreases ds.len(),
{
    if ds.len() == 0 {
        acc
    } else {
        digits_fold(acc * 10 + digit_val(ds[0]), ds.drop_first())
    }
}

proof fn lemma_parse_is_fold(s: Seq<char>, i: int, e: int, acc: nat)
    requires
        0 <= i <= e <= s.len(),
        forall|k: int| i <= k < e ==> is_digit_char(#[trigger] s[k]),
        e == s.len() || !is_digit_char(s[e]),
    ensures
        spec_parse_digits(s, i, acc) == (digits_fold(acc, s.subrange(i, e)), e),
    decreases e - i,
{
    let ds = s.subrange(i, e);
    if i == e {
        assert(ds.len() == 0);
    } else {
        assert(is_digit_char(s[i]));
        assert(ds[0] == s[i]);
        lemma_parse_is_fold(s, i + 1, e, acc * 10 + digit_val(s[i]));
        assert(ds.drop_first() =~= s.subrange(i + 1, e));
    }
}

proof fn lemma_fold_push(acc: nat, ds: Seq<char>, c: char)
    ensures
        digits_fold(acc, ds.push(c)) == digits_fold(acc, ds) * 10 + digit_val(c),
    decreases ds.len(),
{
    if ds.len() == 0 {
        assert(ds.push(c)[0] == c);
        assert(ds.push(c).drop_first() =~= Seq::<char>::empty());
        assert(digits_fold(acc, ds.push(c)) == digits_fold(
            acc * 10 + digit_val(c),
            Seq::<char>::empty(),
        ));
        assert(digits_fold(acc * 10 + digit_val(c), Seq::<char>::empty()) == acc * 10 + digit_val(
            c,
        ));
        assert(digits_fold(acc, ds) == acc);
    } else {
        assert(ds.push(c)[0] == ds[0]);
        assert(ds.push(c).drop_first() =~= ds.drop_first().push(c));
        let acc1 = acc * 10 + digit_val(ds[0]);
        assert(digits_fold(acc, ds.push(c)) == digits_fold(acc1, ds.drop_first().push(c)));
        lemma_fold_push(acc1, ds.drop_first(), c);
        assert(digits_fold(acc, ds) == digits_fold(acc1, ds.drop_first()));
    }
}

proof fn lemma_fold_digits(n: nat)
    ensures
        digits_fold(0, spec_digits(n)) == n,
    decreases n,
{
    if n < 10 {
        let ds = spec_digits(n);
        assert(ds[0] == spec_digit(n));
        assert(ds.drop_first() =~= Seq::<char>::empty());
        assert(digit_val(spec_digit(n)) == n);
        assert(digits_fold(0, ds) == digits_fold(digit_val(ds[0]), Seq::<char>::empty()));
    } else {
        assert(n / 10 < n) by (nonlinear_arith)
            requires n >= 10;
        lemma_fold_digits(n / 10);
        lemma_fold_push(0, spec_digits(n / 10), spec_digit(n % 10));
        assert(spec_digits(n) == spec_digits(n / 10).push(spec_digit(n % 10)));
        assert(digits_fold(0, spec_digits(n)) == digits_fold(0, spec_digits(n / 10)) * 10
            + digit_val(spec_digit(n % 10)));
        assert(digit_val(spec_digit(n % 10)) == n % 10);
        assert((n / 10) * 10 + n % 10 == n) by (nonlinear_arith);
    }
}

/// Reading an escaped string region followed by a closing quote yields the
/// tail of the string from `k` on.
proof fn lemma_parse_string_region(t: Seq<char>, k: int, s: Seq<char>, i: int)
    requires
        wf_str(t),
        0 <= k <= t.len(),
        0 <= i,
        i + spec_escape(t, k).len() + 1 <= s.len(),
        s.subrange(i, i + spec_escape(t, k).len()) == spec_escape(t, k),
        s[i + spec_escape(t, k).len()] == '"',
    ensures
        spec_parse_string_chars(s, i) == Some(
            (t.subrange(k, t.len() as int), i + spec_escape(t, k).len() + 1),
        ),
    decreases t.len() - k,
{
    let esc = spec_escape(t, k);
    let e = i + esc.len();
    if k == t.len() {
        assert(esc.len() == 0);
        assert(s[i] == '"');
        assert(t.subrange(k, t.len() as int) =~= Seq::<char>::empty());
    } else {
        let c = t[k];
        assert((c as u32) >= 0x20);
        let esc1 = spec_escape_char(c);
        let rest = spec_escape(t, k + 1);
        assert(esc == esc1 + rest);
        assert(s.subrange(i + esc1.len(), e) =~= rest) by {
            assert forall|x: int| 0 <= x < rest.len() implies s.subrange(
                i + esc1.len(),
                e,
            )[x] == rest[x] by {
                assert(s.subrange(i, e)[esc1.len() + x] == s[i + esc1.len() + x]);
                assert(esc[esc1.len() + x] == rest[x]);
            }
        }
        if c == '"' || c == '\\' {
            assert(esc1 =~= seq!['\\', c]);
            assert(s[i] == '\\' && s[i + 1] == c) by {
                assert(s.subrange(i, e)[0] == s[i]);
                assert(s.subrange(i, e)[1] == s[i + 1]);
            }
            lemma_parse_string_region(t, k + 1, s, i + 2);
            assert(spec_parse_string_chars(s, i) == Some(
                (seq![c] + t.subrange(k + 1, t.len() as int), e + 1),
            ));
            assert(seq![c] + t.subrange(k + 1, t.len() as int) =~= t.subrange(k, t.len() as int));
        } else {
            assert(esc1 =~= seq![c]);
            assert(s[i] == c) by {
                assert(s.subrange(i, e)[0] == s[i]);
            }
            lemma_parse_string_region(t, k + 1, s, i + 1);
            assert(spec_parse_string_chars(s, i) == Some(
                (seq![c] + t.subrange(k + 1, t.len() as int), e + 1),
            ));
            assert(seq![c] + t.subrange(k + 1, t.len() as int) =~= t.subrange(k, t.len() as int));
        }
    }
}

/// Parsing the printed form of a well-formed document, embedded in `s` at
/// `i`, yields the document and stops right after it.  For a number the
/// region must not be followed by a further digit.
pub proof fn lemma_print_parse(m: JsonModel, s: Seq<char>, i: int)
    requires
        wf_json(m),
        0 <= i,
        i + spec_print(m).len() <= s.len(),
        s.subrange(i, i + spec_print(m).len()) == spec_print(m),
        m is Num ==> i + spec_print(m).len() == s.len() || !is_digit_char(
            s[i + spec_print(m).len()],
        ),
    ensures
        spec_parse_value(s, i) == Some((m, i + spec_print(m).len())),
    decreases m, 0int,
{
    let p = spec_print(m);
    let e = i + p.len();
    assert(forall|x: int| 0 <= x < p.len() ==> s[i + x] == p[x]) by {
        assert forall|x: int| 0 <= x < p.len() implies s[i + x] == p[x] by {
            assert(s.subrange(i, e)[x] == s[i + x]);
        }
    }
    lemma_print_shape(m);
    assert(s[i] == p[0]) by {
        assert(s.subrange(i, e)[0] == s[i]);
    }
    match m {
        JsonModel::Null => {
            assert(s[i] == 'n' && s[i + 1] == 'u' && s[i + 2] == 'l' && s[i + 3] == 'l');
        },
        JsonModel::Bool(b) => {
            if b {
                assert(s[i] == 't' && s[i + 1] == 'r' && s[i + 2] == 'u' && s[i + 3] == 'e');
            } else {
                assert(s[i] == 'f' && s[i + 1] == 'a' && s[i + 2] == 'l' && s[i + 3] == 's'
                    && s[i + 4] == 'e');
            }
        },
        JsonModel::Num(n) => {
            lemma_digits_shape(n);
            assert(s[i] == spec_digits(n)[0]);
            assert(is_digit_char(s[i]));
            lemma_opens_not_delim(s[i]);
            assert(s[i] != 'n' && s[i] != 't' && s[i] != 'f' && s[i] != '"') by {
                assert(('n' as u32) == 110);
                assert(('t' as u32) == 116);
                assert(('f' as u32) == 102);
                assert(('"' as u32) == 34);
                assert(('[' as u32) == 91);
                assert(('{' as u32) == 123);
            }
            assert forall|k: int| i <= k < e implies is_digit_char(#[trigger] s[k]) by {
                assert(s.subrange(i, e)[k - i] == s[k]);
                assert(is_digit_char(spec_digits(n)[k - i]));
            }
            lemma_parse_is_fold(s, i, e, 0);
            lemma_fold_digits(n);
            assert(spec_parse_digits(s, i, 0) == (n, e));
        },
        JsonModel::Str(t) => {
            assert(s[i] == '"');
            assert(p == seq!['"'] + spec_escape(t, 0) + seq!['"']);
            let esc = spec_escape(t, 0);
            assert(s.subrange(i + 1, i + 1 + esc.len()) =~= esc) by {
                assert forall|x: int| 0 <= x < esc.len() implies s.subrange(
                    i + 1,
                    i + 1 + esc.len(),
                )[x] == esc[x] by {
                    assert(s[i + 1 + x] == p[1 + x]);
                    assert(p[1 + x] == esc[x]);
                }
            }
            assert(s[i + 1 + esc.len()] == '"') by {
                assert(p[1 + esc.len() as int] == '"');
            }
            lemma_parse_string_region(t, 0, s, i + 1);
            assert(t.subrange(0, t.len() as int) =~= t);
        },
        JsonModel::Arr(a) => {
            assert(s[i] == '[');
            if a.len() == 0 {
                assert(s[i + 1] == ']');
                assert(!spec_ws(s[i + 1])) by {
                    assert((']' as u32) == 93);
                    assert((' ' as u32) == 32);
                    assert(('\n' as u32) == 10);
                    assert(('\r' as u32) == 13);
                    assert(('\t' as u32) == 9);
                }
                assert(spec_skip_ws(s, i + 1) == i + 1);
                assert(a =~= Seq::<JsonModel>::empty());
            } else {
                let items = spec_print_items(a, 0);
                assert(p == seq!['['] + items + seq![']']);
                assert(wf_items_from(a, 0));
                assert(wf_json(a[0]));
                lemma_print_shape(a[0]);
                assert(items[0] == spec_print(a[0])[0]);
                assert(s[i + 1] == items[0]) by {
                    assert(p[1] == items[0]);
                }
                lemma_opens_not_delim(s[i + 1]);
                assert(spec_skip_ws(s, i + 1) == i + 1);
                assert(s[i + 1] != ']');
                assert(s.subrange(i + 1, i + 1 + items.len()) =~= items) by {
                    assert forall|x: int| 0 <= x < items.len() implies s.subrange(
                        i + 1,
                        i + 1 + items.len(),
                    )[x] == items[x] by {
                        assert(s[i + 1 + x] == p[1 + x]);
                        assert(p[1 + x] == items[x]);
                    }
                }
                assert(s[i + 1 + items.len()] == ']') by {
                    assert(p[1 + items.len() as int] == ']');
                }
                lemma_print_parse_items(a, 0, s, i + 1);
                assert(a.subrange(0, a.len() as int) =~= a);
            }
        },
        JsonModel::Obj(o) => {
            assert(s[i] == '{');
            if o.len() == 0 {
                assert(s[i + 1] == '}');
                assert(!spec_ws(s[i + 1])) by {
                    assert(('}' as u32) == 125);
                    assert((' ' as u32) == 32);
                    assert(('\n' as u32) == 10);
                    assert(('\r' as u32) == 13);
                    assert(('\t' as u32) == 9);
                }
                assert(spec_skip_ws(s, i + 1) == i + 1);
                assert(o =~= Seq::<(Seq<char>, JsonModel)>::empty());
            } else {
                let membs = spec_print_members(o, 0);
                assert(p == seq!['{'] + membs + seq!['}']);
                assert(wf_members_from(o, 0));
                assert(membs[0] == '"') by {
                    let piece = seq!['"'] + spec_escape(o[0].0, 0) + seq!['"', ':'] + spec_print(
                        o[0].1,
                    );
                    assert(piece[0] == '"');
                }
                assert(s[i + 1] == '"') by {
                    assert(p[1] == membs[0]);
                }
                assert(!spec_ws('"')) by {
                    assert(('"' as u32) == 34);
                    assert((' ' as u32) == 32);
                    assert(('\n' as u32) == 10);
                    assert(('\r' as u32) == 13);
                    assert(('\t' as u32) == 9);
                }
                assert(spec_skip_ws(s, i + 1) == i + 1);
                assert(s[i + 1] != '}');
                assert(s.subrange(i + 1, i + 1 + membs.len()) =~= membs) by {
                    assert forall|x: int| 0 <= x < membs.len() implies s.subrange(
                        i + 1,
                        i + 1 + membs.len(),
                    )[x] == membs[x] by {
                        assert(s[i + 1 + x] == p[1 + x]);
                        assert(p[1 + x] == membs[x]);
                    }
                }
                assert(s[i + 1 + membs.len()] == '}') by {
                    assert(p[1 + membs.len() as int] == '}');
                }
                lemma_print_parse_members(o, 0, s, i + 1);
                assert(o.subrange(0, o.len() as int) =~= o);
            }
        },
    }
}

/// Parsing a printed element list followed by `]` yields the elements from
/// `x` on and stops right after the bracket.
proof fn lemma_print_parse_items(a: Seq<JsonModel>, x: int, s: Seq<char>, i: int)
    requires
        wf_items_from(a, 0),
        0 <= x < a.len(),
        0 <= i,
        i + spec_print_items(a, x).len() + 1 <= s.len(),
        s.subrange(i, i + spec_print_items(a, x).len()) == spec_print_items(a, x),
        s[i + spec_print_items(a, x).len()] == ']',
    ensures
        spec_parse_items(s, i) == Some(
            (a.subrange(x, a.len() as int), i + spec_print_items(a, x).len() + 1),
        ),
    decreases a, a.len() - x,
{
    let items = spec_print_items(a, x);
    let e = i + items.len();
    let p0 = spec_print(a[x]);
    let e1 = i + p0.len();
    assert(wf_json(a[x]));
    lemma_print_shape(a[x]);
    assert(forall|y: int| 0 <= y < items.len() ==> s[i + y] == items[y]) by {
        assert forall|y: int| 0 <= y < items.len() implies s[i + y] == items[y] by {
            assert(s.subrange(i, e)[y] == s[i + y]);
        }
    }
    if x == a.len() - 1 {
        assert(items == p0);
        assert(s.subrange(i, e1) == p0);
        assert(s[e1] == ']');
        assert(!is_digit_char(']')) by {
            assert((']' as u32) == 93);
        }
        assert(!spec_ws(']')) by {
            assert((']' as u32) == 93);
            assert((' ' as u32) == 32);
            assert(('\n' as u32) == 10);
            assert(('\r' as u32) == 13);
            assert(('\t' as u32) == 9);
        }
        assert((']' as u32) != (',' as u32)) by {
            assert((']' as u32) == 93);
            assert((',' as u32) == 44);
        }
        lemma_print_parse(a[x], s, i);
        assert(spec_parse_value(s, i) == Some((a[x], e1)));
        assert(spec_skip_ws(s, e1) == e1);
        assert(seq![a[x]] =~= a.subrange(x, a.len() as int));
    } else {
        assert(items == p0 + seq![','] + spec_print_items(a, x + 1));
        let tail = spec_print_items(a, x + 1);
        assert(s.subrange(i, e1) =~= p0) by {
            assert forall|y: int| 0 <= y < p0.len() implies s.subrange(i, e1)[y] == p0[y] by {
                assert(s[i + y] == items[y]);
                assert(items[y] == p0[y]);
            }
        }
        assert(s[e1] == ',') by {
            assert(items[p0.len() as int] == ',');
        }
        assert(!is_digit_char(',') && !spec_ws(',')) by {
            assert((',' as u32) == 44);
            assert((' ' as u32) == 32);
            assert(('\n' as u32) == 10);
            assert(('\r' as u32) == 13);
            assert(('\t' as u32) == 9);
        }
        lemma_print_parse(a[x], s, i);
        assert(spec_parse_value(s, i) == Some((a[x], e1)));
        assert(spec_skip_ws(s, e1) == e1);
        // the element after the comma opens a value, so no whitespace is skipped
        assert(wf_json(a[x + 1]));
        lemma_print_shape(a[x + 1]);
        assert(tail[0] == spec_print(a[x + 1])[0]);
        assert(s[e1 + 1] == tail[0]) by {
            assert(items[p0.len() + 1 as int] == tail[0]);
        }
        lemma_opens_not_delim(s[e1 + 1]);
        assert(spec_skip_ws(s, e1 + 1) == e1 + 1);
        assert(s.subrange(e1 + 1, e1 + 1 + tail.len()) =~= tail) by {
            assert forall|y: int| 0 <= y < tail.len() implies s.subrange(
                e1 + 1,
                e1 + 1 + tail.len(),
            )[y] == tail[y] by {
                assert(s[i + p0.len() + 1 + y] == items[p0.len() as int + 1 + y]);
                assert(items[p0.len() as int + 1 + y] == tail[y]);
            }
        }
        assert(s[e1 + 1 + tail.len()] == ']');
        lemma_print_parse_items(a, x + 1, s, e1 + 1);
        assert(spec_parse_items(s, e1 + 1) == Some(
            (a.subrange(x + 1, a.len() as int), e + 1),
        ));
        assert(seq![a[x]] + a.subrange(x + 1, a.len() as int) =~= a.subrange(x, a.len() as int));
    }
}

/// Parsing a printed member list followed by `}` yields the members from
/// `x` on and stops right after the brace.
proof fn lemma_print_parse_members(o: Seq<(Seq<char>, JsonModel)>, x: int, s: Seq<char>, i: int)
    requires
        wf_members_from(o, 0),
        0 <= x < o.len(),
        0 <= i,
        i + spec_print_members(o, x).len() + 1 <= s.len(),
        s.subrange(i, i + spec_print_members(o, x).len()) == spec_print_members(o, x),
        s[i + spec_print_members(o, x).len()] == '}',
    ensures
        spec_parse_members(s, i) == Some(
            (o.subrange(x, o.len() as int), i + spec_print_members(o, x).len() + 1),
        ),
    decreases o, o.len() - x,
{
    let membs = spec_print_members(o, x);
    let e = i + membs.len();
    let key = o[x].0;
    let val = o[x].1;
    let piece = seq!['"'] + spec_escape(key, 0) + seq!['"', ':'] + spec_print(val);
    assert(wf_str(key) && wf_json(val));
    lemma_print_shape(val);
    assert(forall|y: int| 0 <= y < membs.len() ==> s[i + y] == membs[y]) by {
        assert forall|y: int| 0 <= y < membs.len() implies s[i + y] == membs[y] by {
            assert(s.subrange(i, e)[y] == s[i + y]);
        }
    }
    let esc = spec_escape(key, 0);
    let kq = i + 1 + esc.len();  // position of the closing quote of the key
    let vstart = kq + 2;  // position of the value
    let e1 = vstart + spec_print(val).len();  // position after the value
    assert(piece.len() == 3 + esc.len() + spec_print(val).len());
    assert(s[i] == '"') by {
        assert(membs[0] == piece[0]);
    }
    assert(s.subrange(i + 1, i + 1 + esc.len()) =~= esc) by {
        assert forall|y: int| 0 <= y < esc.len() implies s.subrange(
            i + 1,
            i + 1 + esc.len(),
        )[y] == esc[y] by {
            assert(s[i + 1 + y] == membs[1 + y]);
            assert(membs[1 + y] == piece[1 + y]);
            assert(piece[1 + y] == esc[y]);
        }
    }
    assert(s[kq] == '"' && s[kq + 1] == ':') by {
        assert(membs[1 + esc.len() as int] == piece[1 + esc.len() as int]);
        assert(piece[1 + esc.len() as int] == '"');
        assert(membs[2 + esc.len() as int] == piece[2 + esc.len() as int]);
        assert(piece[2 + esc.len() as int] == ':');
    }
    lemma_parse_string_region(key, 0, s, i + 1);
    assert(key.subrange(0, key.len() as int) =~= key);
    assert(spec_parse_string_chars(s, i + 1) == Some((key, kq + 1)));
    assert(!spec_ws(':')) by {
        assert((':' as u32) == 58);
        assert((' ' as u32) == 32);
        assert(('\n' as u32) == 10);
        assert(('\r' as u32) == 13);
        assert(('\t' as u32) == 9);
    }
    assert(spec_skip_ws(s, kq + 1) == kq + 1);
    assert(s[vstart] == spec_print(val)[0]) by {
        assert(membs[3 + esc.len() as int] == piece[3 + esc.len() as int]);
        assert(piece[3 + esc.len() as int] == spec_print(val)[0]);
    }
    lemma_opens_not_delim(s[vstart]);
    assert(spec_skip_ws(s, vstart) == vstart);
    assert(s.subrange(vstart, e1) =~= spec_print(val)) by {
        assert forall|y: int| 0 <= y < spec_print(val).len() implies s.subrange(
            vstart,
            e1,
        )[y] == spec_print(val)[y] by {
            assert(s[i + 3 + esc.len() + y] == membs[3 + esc.len() as int + y]);
            assert(membs[3 + esc.len() as int + y] == piece[3 + esc.len() as int + y]);
            assert(piece[3 + esc.len() as int + y] == spec_print(val)[y]);
        }
    }
    if x == o.len() - 1 {
        assert(membs == piece);
        assert(s[e1] == '}');
        assert(!is_digit_char('}') && !spec_ws('}') && ('}' as u32) != (',' as u32)) by {
            assert(('}' as u32) == 125);
            assert((',' as u32) == 44);
            assert((' ' as u32) == 32);
            assert(('\n' as u32) == 10);
            assert(('\r' as u32) == 13);
            assert(('\t' as u32) == 9);
        }
        lemma_print_parse(val, s, vstart);
        assert(spec_parse_value(s, vstart) == Some((val, e1)));
        assert(spec_skip_ws(s, e1) == e1);
        assert(seq![(key, val)] =~= o.subrange(x, o.len() as int));
    } else {
        assert(membs == piece + seq![','] + spec_print_members(o, x + 1));
        let tail = spec_print_members(o, x + 1);
        assert(s[e1] == ',') by {
            assert(membs[piece.len() as int] == ',');
        }
        assert(!is_digit_char(',') && !spec_ws(',')) by {
            assert((',' as u32) == 44);
            assert((' ' as u32) == 32);
            assert(('\n' as u32) == 10);
            assert(('\r' as u32) == 13);
            assert(('\t' as u32) == 9);
        }
        lemma_print_parse(val, s, vstart);
        assert(spec_parse_value(s, vstart) == Some((val, e1)));
        assert(spec_skip_ws(s, e1) == e1);
        assert(tail[0] == '"') by {
            let piece2 = seq!['"'] + spec_escape(o[x + 1].0, 0) + seq!['"', ':'] + spec_print(
                o[x + 1].1,
            );
            assert(piece2[0] == '"');
        }
        assert(s[e1 + 1] == '"') by {
            assert(membs[piece.len() + 1 as int] == tail[0]);
        }
        assert(!spec_ws('"')) by {
            assert(('"' as u32) == 34);
            assert((' ' as u32) == 32);
            assert(('\n' as u32) == 10);
            assert(('\r' as u32) == 13);
            assert(('\t' as u32) == 9);
        }
        assert(spec_skip_ws(s, e1 + 1) == e1 + 1);
        assert(s.subrange(e1 + 1, e1 + 1 + tail.len()) =~= tail) by {
            assert forall|y: int| 0 <= y < tail.len() implies s.subrange(
                e1 + 1,
                e1 + 1 + tail.len(),
            )[y] == tail[y] by {
                assert(s[i + piece.len() + 1 + y] == membs[piece.len() + 1 + y]);
                assert(membs[piece.len() as int + 1 + y] == tail[y]);
            }
        }
        assert(s[e1 + 1 + tail.len()] == '}');
        lemma_print_parse_members(o, x + 1, s, e1 + 1);
        assert(seq![(key, val)] + o.subrange(x + 1, o.len() as int) =~= o.subrange(
            x,
            o.len() as int,
        ));
    }
}

/// Round trip at the document level: parsing the canonical printed form of
/// a well-formed document yields the document back.
pub proof fn lemma_parse_print_document(m: JsonModel)
    requires
        wf_json(m),
    ensures
        spec_parse_document(spec_print(m)) == Some(m),
{
    let s = spec_print(m);
    lemma_print_shape(m);
    lemma_opens_not_delim(s[0]);
    assert(spec_skip_ws(s, 0) == 0);
    assert(s.subrange(0, s.len() as int) =~= s);
    lemma_print_parse(m, s, 0);
    assert(spec_parse_value(s, 0) == Some((m, s.len() as int)));
    assert(spec_skip_ws(s, s.len() as int) == s.len());
}

} // verus!
