//! Containers of named values that travel as JSON documents.
//!
//! A document is an object with the texts `source_id`, `source_sub_id`,
//! `target_id`, `target_sub_id` and `message_type` and the array `values`, whose
//! items name a value, its type code and its text.

use crate::error::{concatenated, ErrorView, NetworkError};
use crate::network::message::Message;
use crate::text;
use crate::text::same_text;
use serde_json::Value;
use vstd::prelude::*;
use vstd::string::*;

verus! {

/// `serde_json::Value`, a parsed JSON document.
#[verifier::external_type_specification]
#[verifier::external_body]
pub struct ExValue(Value);

/// What a JSON document holds.
pub enum Json {
    Null,
    Bool(bool),
    Number,
    Text(Seq<char>),
    Array(Seq<Json>),
    Object(Map<Seq<char>, Json>),
}

/// What a `serde_json::Value` holds. Of a number only that it is one.
pub uninterp spec fn json_held(v: Value) -> Json;

/// What `serde_json::from_str` reads from a text: the document, or what is wrong
/// with it.
pub uninterp spec fn json_read(text: Seq<char>) -> Result<Json, Seq<char>>;

/// Calls `serde_json::from_str` for a `Value`, and writes its error out. The
/// result is the named one; how JSON is read is not said here.
#[verifier::external_body]
fn json_from_str(text: &str) -> (r: Result<Value, String>)
    ensures
        match (r, json_read(text@)) {
            (Ok(v), Ok(j)) => json_held(v) == j,
            (Err(e), Err(t)) => e@ == t,
            _ => false,
        },
{
    serde_json::from_str(text).map_err(|e: serde_json::Error| e.to_string())
}

/// Calls `Value::get` with a text: the member of that name, where the value is an
/// object that has it.
#[verifier::external_body]
fn json_member<'a>(v: &'a Value, key: &str) -> (r: Option<&'a Value>)
    ensures
        match r {
            Some(m) => json_held(*v) matches Json::Object(o) && o.contains_key(key@) && json_held(
                *m,
            ) == o[key@],
            None => json_held(*v) matches Json::Object(o) ==> !o.contains_key(key@),
        },
{
    v.get(key)
}

/// Calls `Value::as_str`: the text, where the value is one.
#[verifier::external_body]
fn json_as_str(v: &Value) -> (r: Option<&str>)
    ensures
        match r {
            Some(s) => json_held(*v) == Json::Text(s@),
            None => !(json_held(*v) is Text),
        },
{
    v.as_str()
}

/// Calls `Value::as_array`: the items in order, where the value is an array.
#[verifier::external_body]
fn json_as_array(v: &Value) -> (r: Option<&Vec<Value>>)
    ensures
        match r {
            Some(items) => json_held(*v) == Json::Array(items@.map_values(|i: Value| json_held(i))),
            None => !(json_held(*v) is Array),
        },
{
    v.as_array()
}

/// What `std::str::from_utf8` says is wrong with bytes that are not UTF-8.
pub uninterp spec fn utf8_error(bytes: Seq<u8>) -> Seq<char>;

/// Calls `std::str::from_utf8`: the text whose UTF-8 encoding the bytes are, or,
/// if and only if they are not UTF-8, what is wrong with them.
#[verifier::external_body]
fn utf8_text(bytes: &[u8]) -> (r: Result<&str, String>)
    ensures
        match r {
            Ok(s) => vstd::utf8::valid_utf8(bytes@) && s@ == vstd::utf8::decode_utf8(bytes@),
            Err(e) => !vstd::utf8::valid_utf8(bytes@) && e@ == utf8_error(bytes@),
        },
{
    std::str::from_utf8(bytes).map_err(|e: std::str::Utf8Error| e.to_string())
}

/// What `str::parse::<i32>` says is wrong with a text.
pub uninterp spec fn i32_error(text: Seq<char>) -> Seq<char>;

/// What `str::parse::<i64>` says is wrong with a text.
pub uninterp spec fn i64_error(text: Seq<char>) -> Seq<char>;

/// What is wrong with a text that is neither `true` nor `false`.
pub open spec fn bool_error() -> Seq<char> {
    "provided string was not `true` or `false`"@
}

/// Whether a text is made of decimal digits.
pub open spec fn all_digits(text: Seq<char>) -> bool {
    forall|i: int| 0 <= i < text.len() ==> '0' <= #[trigger] text[i] && text[i] <= '9'
}

/// The number that decimal digits write.
pub open spec fn digits_value(text: Seq<char>) -> nat
    decreases text.len(),
{
    if text.len() == 0 {
        0
    } else {
        digits_value(text.drop_last()) * 10 + (text.last() as u32 - '0' as u32) as nat
    }
}

/// The whole number that a text writes: digits, at least one, after an optional sign.
pub open spec fn integer_value(text: Seq<char>) -> Option<int> {
    if text.len() > 1 && text[0] == '-' && all_digits(text.drop_first()) {
        Some(-(digits_value(text.drop_first()) as int))
    } else if text.len() > 1 && text[0] == '+' && all_digits(text.drop_first()) {
        Some(digits_value(text.drop_first()) as int)
    } else if text.len() > 0 && all_digits(text) {
        Some(digits_value(text) as int)
    } else {
        None
    }
}

/// Reads a truth value: exactly `true` and `false` are read.
fn parse_bool(text: &str) -> (r: Result<bool, String>)
    ensures
        match r {
            Ok(b) => text@ == if b { "true"@ } else { "false"@ },
            Err(e) => text@ != "true"@ && text@ != "false"@ && e@ == bool_error(),
        },
{
    if same_text(text, "true") {
        Ok(true)
    } else if same_text(text, "false") {
        Ok(false)
    } else {
        Err("provided string was not `true` or `false`".to_owned())
    }
}

/// Calls `str::parse::<i32>`: exactly the whole numbers in range are read.
#[verifier::external_body]
fn parse_i32(text: &str) -> (r: Result<i32, String>)
    ensures
        match r {
            Ok(n) => integer_value(text@) == Some(n as int),
            Err(e) => (integer_value(text@) matches Some(n) ==> n < i32::MIN || n > i32::MAX)
                && e@ == i32_error(text@),
        },
{
    text.parse::<i32>().map_err(|e: std::num::ParseIntError| e.to_string())
}

/// Calls `str::parse::<i64>`: exactly the whole numbers in range are read.
#[verifier::external_body]
fn parse_i64(text: &str) -> (r: Result<i64, String>)
    ensures
        match r {
            Ok(n) => integer_value(text@) == Some(n as int),
            Err(e) => (integer_value(text@) matches Some(n) ==> n < i64::MIN || n > i64::MAX)
                && e@ == i64_error(text@),
        },
{
    text.parse::<i64>().map_err(|e: std::num::ParseIntError| e.to_string())
}

/// What a container value holds. A double is kept as the bits of its IEEE 754
/// representation.
#[derive(Debug)]
pub enum ValueData {
    Bool(bool),
    Int(i32),
    Long(i64),
    Double(u64),
    Bytes(Vec<u8>),
    Text(String),
}

/// A named value of a container.
#[derive(Debug)]
pub struct ContainerValue {
    pub name: String,
    pub data: ValueData,
}

/// What a [`ValueData`] holds.
pub enum DataView {
    Bool(bool),
    Int(i32),
    Long(i64),
    Double(u64),
    Bytes(Seq<u8>),
    Text(Seq<char>),
}

/// What a [`ContainerValue`] holds.
pub struct ValueView {
    pub name: Seq<char>,
    pub data: DataView,
}

impl View for ValueData {
    type V = DataView;

    open spec fn view(&self) -> DataView {
        match self {
            ValueData::Bool(b) => DataView::Bool(*b),
            ValueData::Int(n) => DataView::Int(*n),
            ValueData::Long(n) => DataView::Long(*n),
            ValueData::Double(bits) => DataView::Double(*bits),
            ValueData::Bytes(v) => DataView::Bytes(v@),
            ValueData::Text(s) => DataView::Text(s@),
        }
    }
}

impl View for ContainerValue {
    type V = ValueView;

    open spec fn view(&self) -> ValueView {
        ValueView { name: self.name@, data: self.data@ }
    }
}

/// A container: where it comes from, where it goes, what kind it is, and its
/// values in order. What a document does not say is absent.
#[derive(Debug)]
pub struct ValueContainer {
    pub source: Option<(String, String)>,
    pub target: Option<(String, String)>,
    pub message_type: Option<String>,
    pub values: Vec<ContainerValue>,
}

/// What a [`ValueContainer`] holds.
#[verifier::ext_equal]
pub struct ContainerView {
    pub source: Option<(Seq<char>, Seq<char>)>,
    pub target: Option<(Seq<char>, Seq<char>)>,
    pub message_type: Option<Seq<char>>,
    pub values: Seq<ValueView>,
}

/// The characters of a pair of texts.
pub open spec fn pair_view(p: Option<(String, String)>) -> Option<(Seq<char>, Seq<char>)> {
    match p {
        Some(t) => Some((t.0@, t.1@)),
        None => None,
    }
}

impl View for ValueContainer {
    type V = ContainerView;

    open spec fn view(&self) -> ContainerView {
        ContainerView {
            source: pair_view(self.source),
            target: pair_view(self.target),
            message_type: match self.message_type {
                Some(t) => Some(t@),
                None => None,
            },
            values: self.values@.map_values(|v: ContainerValue| v@),
        }
    }
}

/// The member of a document under a key.
pub open spec fn member(j: Json, key: Seq<char>) -> Option<Json> {
    match j {
        Json::Object(o) => if o.contains_key(key) {
            Some(o[key])
        } else {
            None
        },
        _ => None,
    }
}

/// The text under a key of a document.
pub open spec fn text_member(j: Json, key: Seq<char>) -> Option<Seq<char>> {
    match member(j, key) {
        Some(Json::Text(t)) => Some(t),
        _ => None,
    }
}

/// The texts under two keys, where both are there.
pub open spec fn text_pair(j: Json, first: Seq<char>, second: Seq<char>) -> Option<
    (Seq<char>, Seq<char>),
> {
    match (text_member(j, first), text_member(j, second)) {
        (Some(a), Some(b)) => Some((a, b)),
        _ => None,
    }
}

/// The items of the values array; none where there is no such array.
pub open spec fn value_items(j: Json) -> Seq<Json> {
    match member(j, "values"@) {
        Some(Json::Array(items)) => items,
        _ => Seq::empty(),
    }
}

/// Whether an item of the values array is read: only one with all three texts is.
pub open spec fn is_value(item: Json) -> bool {
    text_member(item, "name"@) is Some && text_member(item, "type"@) is Some && text_member(
        item,
        "value"@,
    ) is Some
}

/// Whether an item of the values array is a double.
pub open spec fn is_double(item: Json) -> bool {
    is_value(item) && text_member(item, "type"@) == Some("11"@)
}

/// The error of a value that cannot be read.
pub open spec fn value_error(prefix: Seq<char>, detail: Seq<char>) -> ErrorView {
    ErrorView::Serialization(prefix + detail)
}

/// What a value of a given type code and text holds, where `double` is what the
/// text means as a double.
pub open spec fn read_data(
    code: Seq<char>,
    text: Seq<char>,
    double: Result<u64, Seq<char>>,
) -> Result<DataView, ErrorView> {
    if code == "1"@ {
        if text == "true"@ {
            Ok(DataView::Bool(true))
        } else if text == "false"@ {
            Ok(DataView::Bool(false))
        } else {
            Err(value_error("Invalid bool value: "@, bool_error()))
        }
    } else if code == "4"@ {
        match integer_value(text) {
            Some(n) if i32::MIN <= n <= i32::MAX => Ok(DataView::Int(n as i32)),
            _ => Err(value_error("Invalid int value: "@, i32_error(text))),
        }
    } else if code == "6"@ || code == "8"@ {
        match integer_value(text) {
            Some(n) if i64::MIN <= n <= i64::MAX => Ok(DataView::Long(n as i64)),
            _ => Err(value_error("Invalid long value: "@, i64_error(text))),
        }
    } else if code == "11"@ {
        match double {
            Ok(bits) => Ok(DataView::Double(bits)),
            Err(e) => Err(value_error("Invalid double value: "@, e)),
        }
    } else if code == "13"@ {
        Ok(DataView::Text(text))
    } else if code == "12"@ {
        Ok(DataView::Bytes(vstd::utf8::encode_utf8(text)))
    } else {
        Err(value_error("Unsupported value type: "@, code))
    }
}

/// What an item that [`is_value`] holds.
pub open spec fn read_item(item: Json, double: Result<u64, Seq<char>>) -> Result<
    ValueView,
    ErrorView,
> {
    match read_data(text_member(item, "type"@)->0, text_member(item, "value"@)->0, double) {
        Ok(data) => Ok(ValueView { name: text_member(item, "name"@)->0, data }),
        Err(e) => Err(e),
    }
}

/// The values of the first `n` items, in order, or the error of the first that
/// cannot be read. `doubles` says what the text of each item means as a double.
pub open spec fn read_items(
    items: Seq<Json>,
    doubles: Seq<Result<u64, Seq<char>>>,
    n: nat,
) -> Result<Seq<ValueView>, ErrorView>
    decreases n,
{
    if n == 0 {
        Ok(Seq::empty())
    } else {
        match read_items(items, doubles, (n - 1) as nat) {
            Err(e) => Err(e),
            Ok(values) => if is_value(items[n - 1]) {
                match read_item(items[n - 1], doubles[n - 1]) {
                    Ok(v) => Ok(values.push(v)),
                    Err(e) => Err(e),
                }
            } else {
                Ok(values)
            },
        }
    }
}

/// The container that a document describes.
pub open spec fn read_container(j: Json, doubles: Seq<Result<u64, Seq<char>>>) -> Result<
    ContainerView,
    ErrorView,
> {
    match read_items(value_items(j), doubles, value_items(j).len()) {
        Ok(values) => Ok(
            ContainerView {
                source: text_pair(j, "source_id"@, "source_sub_id"@),
                target: text_pair(j, "target_id"@, "target_sub_id"@),
                message_type: text_member(j, "message_type"@),
                values,
            },
        ),
        Err(e) => Err(e),
    }
}

/// The characters of an outcome.
pub open spec fn outcome_view(r: Result<u64, String>) -> Result<u64, Seq<char>> {
    match r {
        Ok(bits) => Ok(bits),
        Err(e) => Err(e@),
    }
}

/// Whether `outcome` is an outcome of `read_double` on a text.
pub open spec fn reads_double<F: Fn(&str) -> Result<u64, String>>(
    read_double: F,
    text: Seq<char>,
    outcome: Result<u64, Seq<char>>,
) -> bool {
    exists|s: &str, r: Result<u64, String>|
        s@ == text && #[trigger] call_ensures(read_double, (s,), r) && outcome_view(r) == outcome
}

/// Whether `doubles` says of each double that is reached what `read_double` made of
/// its text.
pub open spec fn doubles_read<F: Fn(&str) -> Result<u64, String>>(
    read_double: F,
    items: Seq<Json>,
    doubles: Seq<Result<u64, Seq<char>>>,
) -> bool {
    doubles.len() == items.len() && forall|i: int|
        0 <= i < items.len() && is_double(items[i]) && read_items(items, doubles, i as nat) is Ok
            ==> reads_double(read_double, text_member(items[i], "value"@)->0, #[trigger] doubles[i])
}

/// An item that cannot be read fails the whole.
proof fn lemma_error_stays(
    items: Seq<Json>,
    doubles: Seq<Result<u64, Seq<char>>>,
    n: nat,
    m: nat,
)
    requires
        n <= m,
        read_items(items, doubles, n) is Err,
    ensures
        read_items(items, doubles, m) == read_items(items, doubles, n),
    decreases m,
{
    if n < m {
        lemma_error_stays(items, doubles, n, (m - 1) as nat);
    }
}

/// What the first items hold does not depend on the doubles of later ones.
proof fn lemma_items_local(
    items: Seq<Json>,
    a: Seq<Result<u64, Seq<char>>>,
    b: Seq<Result<u64, Seq<char>>>,
    n: nat,
)
    requires
        forall|i: int| 0 <= i < n ==> a[i] == b[i],
    ensures
        read_items(items, a, n) == read_items(items, b, n),
    decreases n,
{
    if n > 0 {
        lemma_items_local(items, a, b, (n - 1) as nat);
    }
}

/// The text under a key of a document.
fn text_of<'a>(document: &'a Value, key: &str) -> (r: Option<&'a str>)
    ensures
        match r {
            Some(s) => text_member(json_held(*document), key@) == Some(s@),
            None => text_member(json_held(*document), key@) is None,
        },
{
    match json_member(document, key) {
        Some(v) => json_as_str(v),
        None => None,
    }
}

/// The texts under two keys, where both are there.
fn texts_of(document: &Value, first: &str, second: &str) -> (r: Option<(String, String)>)
    ensures
        pair_view(r) == text_pair(json_held(*document), first@, second@),
{
    match (text_of(document, first), text_of(document, second)) {
        (Some(a), Some(b)) => Some((a.to_owned(), b.to_owned())),
        _ => None,
    }
}

/// The error of a value that cannot be read.
fn value_failure(prefix: &str, detail: &String) -> (e: NetworkError)
    ensures
        e@ == value_error(prefix@, detail@),
{
    NetworkError::serialization(concatenated(prefix, detail))
}

/// Reads the text of a value of a given type code. The text of a double is read by
/// `read_double`, which gives the bits of the number.
fn data_of<F: Fn(&str) -> Result<u64, String>>(code: &str, text: &str, read_double: &F) -> (r:
    Result<ValueData, NetworkError>)
    requires
        forall|s: &str| call_requires(*read_double, (s,)),
    ensures
        exists|double: Result<u64, Seq<char>>|
            {
                &&& (code@ == "11"@ ==> reads_double(*read_double, text@, double))
                &&& match (r, #[trigger] read_data(code@, text@, double)) {
                    (Ok(d), Ok(v)) => d@ == v,
                    (Err(e), Err(v)) => e@ == v,
                    _ => false,
                }
            },
{
    let ghost mut double: Result<u64, Seq<char>> = Ok(0);
    let r = if same_text(code, "1") {
        match parse_bool(text) {
            Ok(b) => {
                proof {
                    reveal_strlit("true");
                    reveal_strlit("false");
                    assert("true"@.len() == 4 && "false"@.len() == 5);
                }
                Ok(ValueData::Bool(b))
            },
            Err(e) => Err(value_failure("Invalid bool value: ", &e)),
        }
    } else if same_text(code, "4") {
        match parse_i32(text) {
            Ok(n) => Ok(ValueData::Int(n)),
            Err(e) => Err(value_failure("Invalid int value: ", &e)),
        }
    } else if same_text(code, "6") || same_text(code, "8") {
        match parse_i64(text) {
            Ok(n) => Ok(ValueData::Long(n)),
            Err(e) => Err(value_failure("Invalid long value: ", &e)),
        }
    } else if same_text(code, "11") {
        let outcome = read_double(text);
        proof {
            double = outcome_view(outcome);
            assert(reads_double(*read_double, text@, double));
        }
        match outcome {
            Ok(bits) => Ok(ValueData::Double(bits)),
            Err(e) => Err(value_failure("Invalid double value: ", &e)),
        }
    } else if same_text(code, "13") {
        Ok(ValueData::Text(text.to_owned()))
    } else if same_text(code, "12") {
        Ok(ValueData::Bytes(vstd::slice::slice_to_vec(text.as_bytes())))
    } else {
        Err(value_failure("Unsupported value type: ", &code.to_owned()))
    };
    proof {
        reveal_strlit("1");
        reveal_strlit("4");
        reveal_strlit("6");
        reveal_strlit("8");
        reveal_strlit("11");
        assert(code@ == "11"@ ==> reads_double(*read_double, text@, double));
        assert(match (r, read_data(code@, text@, double)) {
            (Ok(d), Ok(v)) => d@ == v,
            (Err(e), Err(v)) => e@ == v,
            _ => false,
        });
    }
    r
}

/// The container that a parsed document describes. The text of a double is read by
/// `read_double`, which gives the bits of the number.
pub fn container_of<F: Fn(&str) -> Result<u64, String>>(document: &Value, read_double: F) -> (r:
    Result<ValueContainer, NetworkError>)
    requires
        forall|s: &str| call_requires(read_double, (s,)),
    ensures
        exists|doubles: Seq<Result<u64, Seq<char>>>|
            {
                &&& doubles_read(read_double, value_items(json_held(*document)), doubles)
                &&& match (r, #[trigger] read_container(json_held(*document), doubles)) {
                    (Ok(c), Ok(v)) => c@ == v,
                    (Err(e), Err(v)) => e@ == v,
                    _ => false,
                }
            },
{
    let ghost j = json_held(*document);
    let ghost items = value_items(j);
    let mut values: Vec<ContainerValue> = Vec::new();
    let ghost mut doubles: Seq<Result<u64, Seq<char>>> = Seq::new(items.len(), |i: int| Ok(0));
    assert(values@.map_values(|v: ContainerValue| v@) =~= Seq::<ValueView>::empty());
    let listed: Option<&Vec<Value>> = match json_member(document, "values") {
        Some(v) => json_as_array(v),
        None => None,
    };
    if let Some(list) = listed {
        let mut i: usize = 0;
        while i < list.len()
            invariant
                i <= list@.len(),
                forall|s: &str| call_requires(read_double, (s,)),
                j == json_held(*document),
                items == value_items(j),
                items == list@.map_values(|v: Value| json_held(v)),
                doubles.len() == items.len(),
                forall|k: int|
                    0 <= k < i && is_double(items[k]) && read_items(items, doubles, k as nat) is Ok
                        ==> reads_double(
                        read_double,
                        text_member(items[k], "value"@)->0,
                        #[trigger] doubles[k],
                    ),
                read_items(items, doubles, i as nat) == Ok::<Seq<ValueView>, ErrorView>(
                    values@.map_values(|v: ContainerValue| v@),
                ),
            decreases list@.len() - i,
        {
            let item = &list[i];
            assert(json_held(*item) == items[i as int]);
            if let (Some(name), Some(code), Some(text)) = (
                text_of(item, "name"),
                text_of(item, "type"),
                text_of(item, "value"),
            ) {
                let ghost before = doubles;
                let read = data_of(code, text, &read_double);
                proof {
                    let double = choose|double: Result<u64, Seq<char>>|
                        {
                            &&& (code@ == "11"@ ==> reads_double(read_double, text@, double))
                            &&& match (read, #[trigger] read_data(code@, text@, double)) {
                                (Ok(d), Ok(v)) => d@ == v,
                                (Err(e), Err(v)) => e@ == v,
                                _ => false,
                            }
                        };
                    doubles = doubles.update(i as int, double);
                    assert forall|k: int|
                        0 <= k <= i && is_double(items[k]) && read_items(
                            items,
                            doubles,
                            k as nat,
                        ) is Ok implies reads_double(
                        read_double,
                        text_member(items[k], "value"@)->0,
                        #[trigger] doubles[k],
                    ) by {
                        lemma_items_local(items, before, doubles, k as nat);
                        if k < i {
                            assert(doubles[k] == before[k]);
                        }
                    }
                    lemma_items_local(items, before, doubles, i as nat);
                }
                match read {
                    Ok(data) => {
                        let ghost held = values@.map_values(|v: ContainerValue| v@);
                        let value = ContainerValue { name: name.to_owned(), data };
                        values.push(value);
                        proof {
                            assert(values@.map_values(|v: ContainerValue| v@) =~= held.push(value@));
                        }
                    },
                    Err(e) => {
                        proof {
                            lemma_error_stays(items, doubles, (i + 1) as nat, items.len());
                            assert forall|k: int|
                                0 <= k < items.len() && is_double(items[k]) && read_items(
                                    items,
                                    doubles,
                                    k as nat,
                                ) is Ok implies reads_double(
                                read_double,
                                text_member(items[k], "value"@)->0,
                                #[trigger] doubles[k],
                            ) by {
                                if k > i {
                                    lemma_error_stays(items, doubles, (i + 1) as nat, k as nat);
                                }
                            }
                            assert(doubles_read(read_double, items, doubles));
                            assert(read_container(j, doubles) is Err);
                        }
                        return Err(e);
                    },
                }
            }
            i = i + 1;
        }
    }
    let container = ValueContainer {
        source: texts_of(document, "source_id", "source_sub_id"),
        target: texts_of(document, "target_id", "target_sub_id"),
        message_type: match text_of(document, "message_type") {
            Some(t) => Some(t.to_owned()),
            None => None,
        },
        values,
    };
    proof {
        assert(doubles_read(read_double, items, doubles));
        assert(values@.map_values(|v: ContainerValue| v@) =~= container@.values);
        assert(read_container(j, doubles) is Ok);
    }
    Ok(container)
}

impl Message {
    /// Creates a message from what serializing a container gave: its bytes, or what
    /// went wrong.
    pub fn from_container(serialized: Result<Vec<u8>, String>) -> (r: Result<Message, NetworkError>)
        ensures
            match (serialized, r) {
                (Ok(bytes), Ok(m)) => m@ == bytes@,
                (Err(t), Err(e)) => e@ == value_error("Container serialization failed: "@, t@),
                _ => false,
            },
    {
        match serialized {
            Ok(bytes) => Ok(Message::new(bytes)),
            Err(t) => Err(value_failure("Container serialization failed: ", &t)),
        }
    }

    /// Creates a message from what serializing a value to JSON gave: its bytes, or
    /// what went wrong.
    pub fn from_json(serialized: Result<Vec<u8>, String>) -> (r: Result<Message, NetworkError>)
        ensures
            match (serialized, r) {
                (Ok(bytes), Ok(m)) => m@ == bytes@,
                (Err(t), Err(e)) => e@ == value_error("JSON serialization failed: "@, t@),
                _ => false,
            },
    {
        match serialized {
            Ok(bytes) => Ok(Message::new(bytes)),
            Err(t) => Err(value_failure("JSON serialization failed: ", &t)),
        }
    }

    /// What reading the payload as JSON gave, its failure told as a serialization error.
    pub fn to_json<T>(&self, parsed: Result<T, String>) -> (r: Result<T, NetworkError>)
        ensures
            match (parsed, r) {
                (Ok(v), Ok(w)) => v == w,
                (Err(t), Err(e)) => e@ == value_error("JSON deserialization failed: "@, t@),
                _ => false,
            },
    {
        match parsed {
            Ok(v) => Ok(v),
            Err(t) => Err(value_failure("JSON deserialization failed: ", &t)),
        }
    }

    /// Reads the payload as the JSON document of a container. The text of a double is
    /// read by `read_double`, which gives the bits of the number.
    pub fn to_container<F: Fn(&str) -> Result<u64, String>>(&self, read_double: F) -> (r: Result<
        ValueContainer,
        NetworkError,
    >)
        requires
            forall|s: &str| call_requires(read_double, (s,)),
        ensures
            if !vstd::utf8::valid_utf8(self@) {
                r matches Err(e) && e@ == value_error(
                    "Invalid UTF-8 in container data: "@,
                    utf8_error(self@),
                )
            } else {
                match json_read(vstd::utf8::decode_utf8(self@)) {
                    Err(t) => r matches Err(e) && e@ == value_error(
                        "Failed to parse container JSON: "@,
                        t,
                    ),
                    Ok(j) => exists|doubles: Seq<Result<u64, Seq<char>>>|
                        {
                            &&& doubles_read(read_double, value_items(j), doubles)
                            &&& match (r, #[trigger] read_container(j, doubles)) {
                                (Ok(c), Ok(v)) => c@ == v,
                                (Err(e), Err(v)) => e@ == v,
                                _ => false,
                            }
                        },
                }
            },
    {
        let text = match utf8_text(self.as_slice()) {
            Ok(text) => text,
            Err(t) => return Err(value_failure("Invalid UTF-8 in container data: ", &t)),
        };
        let document = match json_from_str(text) {
            Ok(document) => document,
            Err(t) => return Err(value_failure("Failed to parse container JSON: ", &t)),
        };
        container_of(&document, read_double)
    }
}

/// The text of a whole number.
pub open spec fn integer_text(n: int) -> Seq<char> {
    if n < 0 {
        seq!['-'] + text::decimal((-n) as nat)
    } else {
        text::decimal(n as nat)
    }
}

/// The type code under which a value is written.
pub open spec fn data_code(data: DataView) -> Seq<char> {
    match data {
        DataView::Bool(_) => "1"@,
        DataView::Int(_) => "4"@,
        DataView::Long(_) => "8"@,
        DataView::Double(_) => "11"@,
        DataView::Bytes(_) => "12"@,
        DataView::Text(_) => "13"@,
    }
}

/// The text as which a value is written, where a double is written as `double`.
pub open spec fn data_text(data: DataView, double: Seq<char>) -> Seq<char> {
    match data {
        DataView::Bool(b) => if b {
            "true"@
        } else {
            "false"@
        },
        DataView::Int(n) => integer_text(n as int),
        DataView::Long(n) => integer_text(n as int),
        DataView::Double(_) => double,
        DataView::Bytes(bytes) => vstd::utf8::decode_utf8(bytes),
        DataView::Text(t) => t,
    }
}

/// The item of the values array for a value.
pub open spec fn value_document(value: ValueView, double: Seq<char>) -> Json {
    Json::Object(
        Map::empty().insert("name"@, Json::Text(value.name)).insert(
            "type"@,
            Json::Text(data_code(value.data)),
        ).insert("value"@, Json::Text(data_text(value.data, double))),
    )
}

/// An object with two more texts, where there are any.
pub open spec fn with_pair(
    o: Map<Seq<char>, Json>,
    first: Seq<char>,
    second: Seq<char>,
    pair: Option<(Seq<char>, Seq<char>)>,
) -> Map<Seq<char>, Json> {
    match pair {
        Some(p) => o.insert(first, Json::Text(p.0)).insert(second, Json::Text(p.1)),
        None => o,
    }
}

/// The document for a container, where the double in the place `i` is written as
/// `double_texts[i]`.
pub open spec fn container_document(c: ContainerView, double_texts: Seq<Seq<char>>) -> Json {
    let values = Seq::new(
        c.values.len(),
        |i: int| value_document(c.values[i], double_texts[i]),
    );
    let plain = Map::empty().insert("values"@, Json::Array(values));
    let from = with_pair(plain, "source_id"@, "source_sub_id"@, c.source);
    let to = with_pair(from, "target_id"@, "target_sub_id"@, c.target);
    Json::Object(
        match c.message_type {
            Some(t) => to.insert("message_type"@, Json::Text(t)),
            None => to,
        },
    )
}

/// The decimal digits of a number write that number.
proof fn lemma_decimal_read(n: nat)
    ensures
        text::decimal(n).len() > 0,
        all_digits(text::decimal(n)),
        digits_value(text::decimal(n)) == n,
    decreases n,
{
    let d = text::decimal(n);
    if n < 10 {
        assert(d.drop_last() =~= Seq::empty());
        assert(digits_value(d.drop_last()) == 0);
        assert(d.last() == text::decimal_digit(n));
    } else {
        lemma_decimal_read(n / 10);
        assert(d.drop_last() =~= text::decimal(n / 10));
        assert(d.last() == text::decimal_digit(n % 10));
        assert forall|i: int| 0 <= i < d.len() implies '0' <= #[trigger] d[i] && d[i] <= '9' by {
            if i < d.len() - 1 {
                assert(d[i] == text::decimal(n / 10)[i]);
            }
        }
    }
}

/// The text of a whole number is read as that number.
pub proof fn integer_reads_back(n: int)
    ensures
        integer_value(integer_text(n)) == Some(n),
{
    let t = integer_text(n);
    if n < 0 {
        lemma_decimal_read((-n) as nat);
        assert(t.drop_first() =~= text::decimal((-n) as nat));
    } else {
        lemma_decimal_read(n as nat);
        assert('0' <= t[0] && t[0] <= '9');
    }
}

/// What a value is written as is read as that value.
proof fn lemma_value_reads_back(value: ValueView, double: Seq<char>, read: Result<u64, Seq<char>>)
    requires
        value.data matches DataView::Double(bits) ==> read == Ok::<u64, Seq<char>>(bits),
        value.data matches DataView::Bytes(bytes) ==> vstd::utf8::valid_utf8(bytes),
    ensures
        is_value(value_document(value, double)),
        read_item(value_document(value, double), read) == Ok::<ValueView, ErrorView>(value),
{
    reveal_strlit("name");
    reveal_strlit("type");
    reveal_strlit("value");
    assert("name"@[0] == 'n' && "type"@[0] == 't' && "value"@[0] == 'v');
    let item = value_document(value, double);
    assert(text_member(item, "name"@) == Some(value.name));
    assert(text_member(item, "type"@) == Some(data_code(value.data)));
    assert(text_member(item, "value"@) == Some(data_text(value.data, double)));
    reveal_strlit("1");
    reveal_strlit("4");
    reveal_strlit("6");
    reveal_strlit("8");
    reveal_strlit("11");
    reveal_strlit("12");
    reveal_strlit("13");
    assert("1"@.len() == 1 && "4"@.len() == 1 && "6"@.len() == 1 && "8"@.len() == 1);
    assert("1"@[0] == '1' && "4"@[0] == '4' && "6"@[0] == '6' && "8"@[0] == '8');
    assert("11"@.len() == 2 && "12"@.len() == 2 && "13"@.len() == 2);
    assert("11"@[1] == '1' && "12"@[1] == '2' && "13"@[1] == '3');
    match value.data {
        DataView::Bool(_) => {
            reveal_strlit("true");
            reveal_strlit("false");
            assert("true"@.len() == 4 && "false"@.len() == 5);
        },
        DataView::Int(n) => {
            integer_reads_back(n as int);
        },
        DataView::Long(n) => {
            integer_reads_back(n as int);
        },
        DataView::Bytes(bytes) => {
            vstd::utf8::decode_utf8_encode_utf8(bytes);
        },
        _ => {},
    }
}

/// What the first values are written as is read as those values.
proof fn lemma_values_read_back(
    c: ContainerView,
    double_texts: Seq<Seq<char>>,
    doubles: Seq<Result<u64, Seq<char>>>,
    n: nat,
)
    requires
        n <= c.values.len(),
        forall|i: int|
            0 <= i < c.values.len() ==> ((#[trigger] c.values[i]).data matches DataView::Double(bits)
                ==> doubles[i] == Ok::<u64, Seq<char>>(bits)) && (c.values[i].data matches
                DataView::Bytes(bytes) ==> vstd::utf8::valid_utf8(bytes)),
    ensures
        read_items(value_items(container_document(c, double_texts)), doubles, n) == Ok::<
            Seq<ValueView>,
            ErrorView,
        >(c.values.take(n as int)),
    decreases n,
{
    lemma_keys_differ();
    let items = value_items(container_document(c, double_texts));
    assert(items.len() == c.values.len());
    if n == 0 {
        assert(c.values.take(0) =~= Seq::empty());
    } else {
        lemma_values_read_back(c, double_texts, doubles, (n - 1) as nat);
        let value = c.values[n - 1];
        assert(items[n - 1] == value_document(value, double_texts[n - 1]));
        lemma_value_reads_back(value, double_texts[n - 1], doubles[n - 1]);
        assert(c.values.take(n - 1).push(value) =~= c.values.take(n as int));
    }
}

/// The keys of a document are told apart.
proof fn lemma_keys_differ()
    ensures
        "values"@.len() == 6,
        "source_id"@.len() == 9,
        "source_sub_id"@.len() == 13,
        "target_id"@.len() == 9,
        "target_sub_id"@.len() == 13,
        "message_type"@.len() == 12,
        "source_id"@ != "target_id"@,
        "source_sub_id"@ != "target_sub_id"@,
{
    reveal_strlit("values");
    reveal_strlit("source_id");
    reveal_strlit("source_sub_id");
    reveal_strlit("target_id");
    reveal_strlit("target_sub_id");
    reveal_strlit("message_type");
    assert("source_id"@[0] == 's' && "target_id"@[0] == 't');
    assert("source_sub_id"@[0] == 's' && "target_sub_id"@[0] == 't');
}

/// A container that is written out as a document is read back unchanged: where it comes
/// from, where it goes, its kind, and its values in order. Doubles come back as what
/// their texts are read as, and bytes must be UTF-8 to be written at all.
pub proof fn container_reads_back(
    c: ContainerView,
    double_texts: Seq<Seq<char>>,
    doubles: Seq<Result<u64, Seq<char>>>,
)
    requires
        forall|i: int|
            0 <= i < c.values.len() ==> ((#[trigger] c.values[i]).data matches DataView::Double(bits)
                ==> doubles[i] == Ok::<u64, Seq<char>>(bits)) && (c.values[i].data matches
                DataView::Bytes(bytes) ==> vstd::utf8::valid_utf8(bytes)),
    ensures
        read_container(container_document(c, double_texts), doubles) == Ok::<
            ContainerView,
            ErrorView,
        >(c),
{
    lemma_keys_differ();
    lemma_values_read_back(c, double_texts, doubles, c.values.len());
    assert(c.values.take(c.values.len() as int) =~= c.values);
}

/// The type codes are told apart.
proof fn lemma_codes_differ()
    ensures
        "1"@.len() == 1 && "4"@.len() == 1 && "6"@.len() == 1 && "8"@.len() == 1,
        "11"@.len() == 2 && "12"@.len() == 2 && "13"@.len() == 2,
        "1"@[0] == '1' && "4"@[0] == '4' && "6"@[0] == '6' && "8"@[0] == '8',
        "11"@[1] == '1' && "12"@[1] == '2' && "13"@[1] == '3',
{
    reveal_strlit("1");
    reveal_strlit("4");
    reveal_strlit("6");
    reveal_strlit("8");
    reveal_strlit("11");
    reveal_strlit("12");
    reveal_strlit("13");
}

/// Every whole number in the range of a long is read under both codes for longs, and nothing
/// else is: a text that is no number, or one out of range, is refused. Both codes read every
/// text the same.
pub proof fn longs_are_read(n: int, text: Seq<char>, double: Result<u64, Seq<char>>)
    ensures
        i64::MIN <= n <= i64::MAX ==> read_data("6"@, integer_text(n), double) == Ok::<
            DataView,
            ErrorView,
        >(DataView::Long(n as i64)),
        !(i64::MIN <= n <= i64::MAX) ==> read_data("6"@, integer_text(n), double) is Err,
        integer_value(text) is None ==> read_data("6"@, text, double) is Err,
        read_data("6"@, text, double) == read_data("8"@, text, double),
        read_data("6"@, text, double) matches Ok(data) ==> data is Long,
        read_data("6"@, text, double) matches Err(e) ==> e == ErrorView::Serialization(
            "Invalid long value: "@ + i64_error(text),
        ),
{
    lemma_codes_differ();
    integer_reads_back(n);
}

/// Every whole number in the range of an int is read under its code, and nothing else is.
pub proof fn ints_are_read(n: int, text: Seq<char>, double: Result<u64, Seq<char>>)
    ensures
        i32::MIN <= n <= i32::MAX ==> read_data("4"@, integer_text(n), double) == Ok::<
            DataView,
            ErrorView,
        >(DataView::Int(n as i32)),
        !(i32::MIN <= n <= i32::MAX) ==> read_data("4"@, integer_text(n), double) is Err,
        integer_value(text) is None ==> read_data("4"@, text, double) is Err,
        read_data("4"@, text, double) matches Ok(data) ==> data is Int,
        read_data("4"@, text, double) matches Err(e) ==> e == ErrorView::Serialization(
            "Invalid int value: "@ + i32_error(text),
        ),
{
    lemma_codes_differ();
    integer_reads_back(n);
}

/// A truth value is written as one of two words, which mean different things, and nothing
/// else is read as one.
pub proof fn bools_are_read(text: Seq<char>, double: Result<u64, Seq<char>>)
    ensures
        read_data("1"@, "true"@, double) == Ok::<DataView, ErrorView>(DataView::Bool(true)),
        read_data("1"@, "false"@, double) == Ok::<DataView, ErrorView>(DataView::Bool(false)),
        text != "true"@ && text != "false"@ ==> read_data("1"@, text, double) == Err::<
            DataView,
            ErrorView,
        >(
            ErrorView::Serialization(
                "Invalid bool value: "@ + "provided string was not `true` or `false`"@,
            ),
        ),
{
    lemma_codes_differ();
    reveal_strlit("true");
    reveal_strlit("false");
    assert("true"@.len() == 4 && "false"@.len() == 5);
}

/// Texts are read as they are, bytes as the UTF-8 encoding of the text, and doubles as what
/// the text means as one, or with its failure.
pub proof fn texts_are_read(text: Seq<char>, double: Result<u64, Seq<char>>)
    ensures
        read_data("13"@, text, double) == Ok::<DataView, ErrorView>(DataView::Text(text)),
        read_data("12"@, text, double) == Ok::<DataView, ErrorView>(
            DataView::Bytes(vstd::utf8::encode_utf8(text)),
        ),
        double matches Ok(bits) ==> read_data("11"@, text, double) == Ok::<DataView, ErrorView>(
            DataView::Double(bits),
        ),
        double matches Err(t) ==> read_data("11"@, text, double) == Err::<DataView, ErrorView>(
            ErrorView::Serialization("Invalid double value: "@ + t),
        ),
{
    lemma_codes_differ();
}

/// A value of any other type is refused, and the refusal says which type it is.
pub proof fn unknown_type_is_refused(
    code: Seq<char>,
    text: Seq<char>,
    double: Result<u64, Seq<char>>,
)
    requires
        code != "1"@,
        code != "4"@,
        code != "6"@,
        code != "8"@,
        code != "11"@,
        code != "12"@,
        code != "13"@,
    ensures
        read_data(code, text, double) == Err::<DataView, ErrorView>(
            ErrorView::Serialization("Unsupported value type: "@ + code),
        ),
{
}

/// Only an item with a name, a type and a value, all of them texts, is read. It has its name
/// and what its type makes of its value.
pub proof fn item_needs_three_texts(
    o: Map<Seq<char>, Json>,
    name: Seq<char>,
    code: Seq<char>,
    text: Seq<char>,
    double: Result<u64, Seq<char>>,
)
    ensures
        o.contains_pair("name"@, Json::Text(name)) && o.contains_pair("type"@, Json::Text(code))
            && o.contains_pair("value"@, Json::Text(text)) ==> {
            &&& is_value(Json::Object(o))
            &&& match read_item(Json::Object(o), double) {
                Ok(v) => v.name == name && read_data(code, text, double) == Ok::<
                    DataView,
                    ErrorView,
                >(v.data),
                Err(e) => read_data(code, text, double) == Err::<DataView, ErrorView>(e),
            }
        },
        !o.contains_key("name"@) || !(o["name"@] is Text) ==> !is_value(Json::Object(o)),
        !o.contains_key("type"@) || !(o["type"@] is Text) ==> !is_value(Json::Object(o)),
        !o.contains_key("value"@) || !(o["value"@] is Text) ==> !is_value(Json::Object(o)),
        !is_value(Json::Null),
        !is_value(Json::Text(text)),
{
}

/// Items are read in their order: one that is not read adds nothing, one that is adds its
/// value at the end, and the first that cannot be read fails the whole, whatever follows.
pub proof fn items_are_read_in_order(
    items: Seq<Json>,
    doubles: Seq<Result<u64, Seq<char>>>,
    n: nat,
    m: nat,
)
    requires
        n < m <= items.len(),
    ensures
        read_items(items, doubles, 0) == Ok::<Seq<ValueView>, ErrorView>(Seq::empty()),
        read_items(items, doubles, n) matches Err(e) ==> read_items(items, doubles, m) == Err::<
            Seq<ValueView>,
            ErrorView,
        >(e),
        read_items(items, doubles, n) matches Ok(values) ==> {
            &&& !is_value(items[n as int]) ==> read_items(items, doubles, n + 1) == Ok::<
                Seq<ValueView>,
                ErrorView,
            >(values)
            &&& is_value(items[n as int]) ==> match read_item(items[n as int], doubles[n as int]) {
                Ok(v) => read_items(items, doubles, n + 1) == Ok::<Seq<ValueView>, ErrorView>(
                    values.push(v),
                ),
                Err(e) => read_items(items, doubles, m) == Err::<Seq<ValueView>, ErrorView>(e),
            }
        },
{
    if read_items(items, doubles, n) is Err {
        lemma_error_stays(items, doubles, n, m);
    }
    if read_items(items, doubles, n + 1) is Err {
        lemma_error_stays(items, doubles, n + 1, m);
    }
}

/// Where a container comes from, and where it goes, needs two texts each: one without the
/// other is as good as none. A document without values has none.
pub proof fn half_a_pair_is_none(o: Map<Seq<char>, Json>, doubles: Seq<Result<u64, Seq<char>>>)
    ensures
        !o.contains_key("source_id"@) || !o.contains_key("source_sub_id"@) ==> (read_container(
            Json::Object(o),
            doubles,
        ) matches Ok(c) ==> c.source is None),
        !o.contains_key("target_id"@) || !o.contains_key("target_sub_id"@) ==> (read_container(
            Json::Object(o),
            doubles,
        ) matches Ok(c) ==> c.target is None),
        !o.contains_key("message_type"@) ==> (read_container(Json::Object(o), doubles) matches Ok(
            c,
        ) ==> c.message_type is None),
        !o.contains_key("values"@) ==> (read_container(Json::Object(o), doubles) matches Ok(c)
            && c.values.len() == 0),
{
}

} // verus!
