//! Tables of key/value pairs and their JSON wire form.
//!
//! A table is an ordered sequence of pairs, not a map: keys may repeat and may be of any
//! type (text, number, boolean, another table). On the wire a table is
//! `{ "pairs": [ { "key": K, "value": V }, ... ] }`, nested tables in the same form.
use vstd::prelude::*;
use vstd::string::StringExecFns;

verus! {

broadcast use vstd::string::group_string_axioms;

/// serde_json's number type, carried through the codec unchanged.
#[verifier::external_type_specification]
#[verifier::external_body]
pub struct ExNumber(serde_json::Number);

/// Relies on serde_json's derived `Clone` for `Number`, a copy of plain data.
pub assume_specification[ <serde_json::Number as Clone>::clone ](n: &serde_json::Number) -> (r:
    serde_json::Number)
    ensures
        r == *n,
;

/// The mathematical form of a table value.
pub enum ValueModel {
    Nil,
    Boolean(bool),
    Number(serde_json::Number),
    Text(Seq<char>),
    Table(Seq<(ValueModel, ValueModel)>),
}

/// The mathematical form of a JSON document; object members keep their order.
pub enum JsonModel {
    Null,
    Bool(bool),
    Number(serde_json::Number),
    Str(Seq<char>),
    Array(Seq<JsonModel>),
    Object(Seq<(Seq<char>, JsonModel)>),
}

/// A dynamically typed value that can stand as a key or a value in a table.
#[derive(PartialEq, Debug)]
pub enum TableValue {
    Nil,
    Boolean(bool),
    Number(serde_json::Number),
    Text(String),
    Table(PairedLuaTable),
}

/// One key/value pair of a table.
#[derive(PartialEq, Debug)]
pub struct LuaKeyValuePair {
    pub key: TableValue,
    pub value: TableValue,
}

/// A table as an ordered list of pairs, duplicates and non-text keys included.
#[derive(PartialEq, Debug)]
pub struct PairedLuaTable {
    pub pairs: Vec<LuaKeyValuePair>,
}

/// A JSON document; object members are kept in order, as a list.
#[derive(PartialEq, Debug)]
pub enum Json {
    Null,
    Bool(bool),
    Number(serde_json::Number),
    Str(String),
    Array(Vec<Json>),
    Object(Vec<JsonMember>),
}

/// One member of a JSON object.
#[derive(PartialEq, Debug)]
pub struct JsonMember {
    pub name: String,
    pub value: Json,
}

/// The wire error: the document is not a table in the pair-list form.
#[derive(Clone, Copy, PartialEq, Eq, Structural, Debug)]
pub struct FormatError;

pub open spec fn value_view(v: TableValue) -> ValueModel
    decreases v,
{
    match v {
        TableValue::Nil => ValueModel::Nil,
        TableValue::Boolean(b) => ValueModel::Boolean(b),
        TableValue::Number(n) => ValueModel::Number(n),
        TableValue::Text(s) => ValueModel::Text(s@),
        TableValue::Table(t) => ValueModel::Table(pairs_view(t.pairs@)),
    }
}

pub open spec fn pairs_view(s: Seq<LuaKeyValuePair>) -> Seq<(ValueModel, ValueModel)>
    decreases s,
{
    if s.len() == 0 {
        Seq::empty()
    } else {
        pairs_view(s.subrange(0, s.len() - 1)).push(
            (value_view(s[s.len() - 1].key), value_view(s[s.len() - 1].value)),
        )
    }
}

pub open spec fn json_view(j: Json) -> JsonModel
    decreases j,
{
    match j {
        Json::Null => JsonModel::Null,
        Json::Bool(b) => JsonModel::Bool(b),
        Json::Number(n) => JsonModel::Number(n),
        Json::Str(s) => JsonModel::Str(s@),
        Json::Array(items) => JsonModel::Array(items_view(items@)),
        Json::Object(members) => JsonModel::Object(members_view(members@)),
    }
}

pub open spec fn items_view(s: Seq<Json>) -> Seq<JsonModel>
    decreases s,
{
    if s.len() == 0 {
        Seq::empty()
    } else {
        items_view(s.subrange(0, s.len() - 1)).push(json_view(s[s.len() - 1]))
    }
}

pub open spec fn members_view(s: Seq<JsonMember>) -> Seq<(Seq<char>, JsonModel)>
    decreases s,
{
    if s.len() == 0 {
        Seq::empty()
    } else {
        members_view(s.subrange(0, s.len() - 1)).push(
            (s[s.len() - 1].name@, json_view(s[s.len() - 1].value)),
        )
    }
}

/// The wire form of a value: scalars map to the JSON scalar of the same type, a table to
/// its pair-list object.
pub open spec fn encode_value(v: ValueModel) -> JsonModel
    decreases v,
{
    match v {
        ValueModel::Nil => JsonModel::Null,
        ValueModel::Boolean(b) => JsonModel::Bool(b),
        ValueModel::Number(n) => JsonModel::Number(n),
        ValueModel::Text(s) => JsonModel::Str(s),
        ValueModel::Table(p) => JsonModel::Object(
            seq![("pairs"@, JsonModel::Array(encode_pairs(p)))],
        ),
    }
}

/// The entries of the `pairs` array, one `{ "key": K, "value": V }` object per pair, in order.
pub open spec fn encode_pairs(p: Seq<(ValueModel, ValueModel)>) -> Seq<JsonModel>
    decreases p,
{
    if p.len() == 0 {
        Seq::empty()
    } else {
        encode_pairs(p.subrange(0, p.len() - 1)).push(
            JsonModel::Object(
                seq![
                    ("key"@, encode_value(p[p.len() - 1].0)),
                    ("value"@, encode_value(p[p.len() - 1].1)),
                ],
            ),
        )
    }
}

/// The wire form of a table.
pub open spec fn encode_table(p: Seq<(ValueModel, ValueModel)>) -> JsonModel {
    encode_value(ValueModel::Table(p))
}

/// The value that a wire document stands for, if it is well formed: `null`, booleans,
/// numbers and strings stand for themselves, an object for a table if it is exactly the
/// pair-list wrapper, and nothing else is accepted.
pub open spec fn decode_value(j: JsonModel) -> Option<ValueModel>
    decreases j,
{
    match j {
        JsonModel::Null => Some(ValueModel::Nil),
        JsonModel::Bool(b) => Some(ValueModel::Boolean(b)),
        JsonModel::Number(n) => Some(ValueModel::Number(n)),
        JsonModel::Str(s) => Some(ValueModel::Text(s)),
        JsonModel::Array(_) => None,
        JsonModel::Object(m) => {
            if m.len() == 1 && m[0].0 == "pairs"@ {
                match m[0].1 {
                    JsonModel::Array(items) => match decode_pairs(items) {
                        Some(p) => Some(ValueModel::Table(p)),
                        None => None,
                    },
                    _ => None,
                }
            } else {
                None
            }
        },
    }
}

/// The pairs that the entries of a `pairs` array stand for: each entry must be an object
/// with exactly the members `key` and `value` (in either order), both decodable.
pub open spec fn decode_pairs(items: Seq<JsonModel>) -> Option<Seq<(ValueModel, ValueModel)>>
    decreases items,
{
    if items.len() == 0 {
        Some(Seq::empty())
    } else {
        match decode_pairs(items.subrange(0, items.len() - 1)) {
            None => None,
            Some(front) => match items[items.len() - 1] {
                JsonModel::Object(m) => {
                    if m.len() == 2 && m[0].0 == "key"@ && m[1].0 == "value"@ {
                        match (decode_value(m[0].1), decode_value(m[1].1)) {
                            (Some(k), Some(v)) => Some(front.push((k, v))),
                            _ => None,
                        }
                    } else if m.len() == 2 && m[0].0 == "value"@ && m[1].0 == "key"@ {
                        match (decode_value(m[1].1), decode_value(m[0].1)) {
                            (Some(k), Some(v)) => Some(front.push((k, v))),
                            _ => None,
                        }
                    } else {
                        None
                    }
                },
                _ => None,
            },
        }
    }
}

/// The table that a wire document stands for, if it is one.
pub open spec fn decode_table(j: JsonModel) -> Option<Seq<(ValueModel, ValueModel)>> {
    match decode_value(j) {
        Some(ValueModel::Table(p)) => Some(p),
        _ => None,
    }
}

proof fn lemma_value_round_trip(v: ValueModel)
    ensures
        decode_value(encode_value(v)) == Some(v),
    decreases v,
{
    reveal_strlit("pairs");
    reveal_strlit("key");
    reveal_strlit("value");
    if let ValueModel::Table(p) = v {
        lemma_pairs_round_trip(p);
    }
}

proof fn lemma_pairs_round_trip(p: Seq<(ValueModel, ValueModel)>)
    ensures
        decode_pairs(encode_pairs(p)) == Some(p),
    decreases p,
{
    reveal_strlit("key");
    reveal_strlit("value");
    if p.len() > 0 {
        let front = p.subrange(0, p.len() - 1);
        lemma_pairs_round_trip(front);
        lemma_value_round_trip(p[p.len() - 1].0);
        lemma_value_round_trip(p[p.len() - 1].1);
        let e = encode_pairs(p);
        assert(e.subrange(0, e.len() - 1) =~= encode_pairs(front));
        assert(front.push(p[p.len() - 1]) =~= p);
    }
}

/// Decoding the wire form of any table gives back the same pairs, in the same order,
/// duplicates and non-text keys included.
pub proof fn lemma_round_trip(p: Seq<(ValueModel, ValueModel)>)
    ensures
        decode_table(encode_table(p)) == Some(p),
{
    lemma_value_round_trip(ValueModel::Table(p));
}

impl View for TableValue {
    type V = ValueModel;

    open spec fn view(&self) -> ValueModel {
        value_view(*self)
    }
}

impl View for PairedLuaTable {
    type V = Seq<(ValueModel, ValueModel)>;

    open spec fn view(&self) -> Seq<(ValueModel, ValueModel)> {
        pairs_view(self.pairs@)
    }
}

impl View for Json {
    type V = JsonModel;

    open spec fn view(&self) -> JsonModel {
        json_view(*self)
    }
}


proof fn lemma_pairs_view_index(s: Seq<LuaKeyValuePair>)
    ensures
        pairs_view(s).len() == s.len(),
        forall|k: int|
            0 <= k < s.len() ==> #[trigger] pairs_view(s)[k] == (
                value_view(s[k].key),
                value_view(s[k].value),
            ),
    decreases s.len(),
{
    if s.len() > 0 {
        let front = s.subrange(0, s.len() - 1);
        lemma_pairs_view_index(front);
        assert forall|k: int| 0 <= k < s.len() - 1 implies #[trigger] s[k] == front[k] by {}
    }
}

proof fn lemma_items_view_index(s: Seq<Json>)
    ensures
        items_view(s).len() == s.len(),
        forall|k: int| 0 <= k < s.len() ==> #[trigger] items_view(s)[k] == json_view(s[k]),
    decreases s.len(),
{
    if s.len() > 0 {
        let front = s.subrange(0, s.len() - 1);
        lemma_items_view_index(front);
        assert forall|k: int| 0 <= k < s.len() - 1 implies #[trigger] s[k] == front[k] by {}
    }
}

proof fn lemma_members_view_index(s: Seq<JsonMember>)
    ensures
        members_view(s).len() == s.len(),
        forall|k: int|
            0 <= k < s.len() ==> #[trigger] members_view(s)[k] == (s[k].name@, json_view(s[k].value)),
    decreases s.len(),
{
    if s.len() > 0 {
        let front = s.subrange(0, s.len() - 1);
        lemma_members_view_index(front);
        assert forall|k: int| 0 <= k < s.len() - 1 implies #[trigger] s[k] == front[k] by {}
    }
}

/// Once a prefix of the entries fails to decode, so do all the entries.
proof fn lemma_decode_pairs_prefix_fails(items: Seq<JsonModel>, n: int)
    requires
        0 <= n <= items.len(),
        decode_pairs(items.subrange(0, n)) is None,
    ensures
        decode_pairs(items) is None,
    decreases items.len() - n,
{
    if n < items.len() {
        let next = items.subrange(0, n + 1);
        assert(next.subrange(0, n) =~= items.subrange(0, n));
        lemma_decode_pairs_prefix_fails(items, n + 1);
    } else {
        assert(items.subrange(0, n) =~= items);
    }
}

fn has_name(m: &JsonMember, lit: &str) -> (r: bool)
    ensures
        r == (m.name@ == lit@),
{
    let l = String::from_str(lit);
    m.name == l
}

impl TableValue {
    /// The wire form of this value.
    pub fn encode(&self) -> (r: Json)
        ensures
            r@ == encode_value(self@),
        decreases self,
    {
        match self {
            TableValue::Nil => Json::Null,
            TableValue::Boolean(b) => Json::Bool(*b),
            TableValue::Number(n) => Json::Number(n.clone()),
            TableValue::Text(s) => Json::Str(s.clone()),
            TableValue::Table(t) => t.encode(),
        }
    }

    /// The value that `j` stands for; `FormatError` exactly when it stands for none.
    pub fn decode(j: &Json) -> (r: Result<TableValue, FormatError>)
        ensures
            match r {
                Ok(v) => decode_value(j@) == Some(v@),
                Err(_) => decode_value(j@) is None,
            },
        decreases j,
    {
        proof {
            reveal_strlit("pairs");
        }
        match j {
            Json::Null => Ok(TableValue::Nil),
            Json::Bool(b) => Ok(TableValue::Boolean(*b)),
            Json::Number(n) => Ok(TableValue::Number(n.clone())),
            Json::Str(s) => Ok(TableValue::Text(s.clone())),
            Json::Array(_) => Err(FormatError),
            Json::Object(m) => {
                proof {
                    lemma_members_view_index(m@);
                }
                if m.len() == 1 && has_name(&m[0], "pairs") {
                    match &m[0].value {
                        Json::Array(items) => match decode_entries(items) {
                            Ok(t) => Ok(TableValue::Table(t)),
                            Err(e) => Err(e),
                        },
                        _ => Err(FormatError),
                    }
                } else {
                    Err(FormatError)
                }
            },
        }
    }
}

/// The table that the entries of a `pairs` array stand for.
fn decode_entries(items: &Vec<Json>) -> (r: Result<PairedLuaTable, FormatError>)
    ensures
        match r {
            Ok(t) => decode_pairs(items_view(items@)) == Some(t@),
            Err(_) => decode_pairs(items_view(items@)) is None,
        },
    decreases items,
{
    proof {
        reveal_strlit("key");
        reveal_strlit("value");
        lemma_items_view_index(items@);
    }
    let ghost model = items_view(items@);
    let mut out: Vec<LuaKeyValuePair> = Vec::new();
    let mut i: usize = 0;
    while i < items.len()
        invariant
            i <= items.len(),
            model == items_view(items@),
            model.len() == items@.len(),
            forall|k: int| 0 <= k < items@.len() ==> #[trigger] model[k] == json_view(items@[k]),
            decode_pairs(model.subrange(0, i as int)) == Some(pairs_view(out@)),
        decreases items.len() - i,
    {
        let ghost next = model.subrange(0, i + 1);
        proof {
            assert(next.subrange(0, i as int) =~= model.subrange(0, i as int));
            assert(next[i as int] == json_view(items@[i as int]));
        }
        let item = &items[i];
        let entry: Option<LuaKeyValuePair> = match item {
            Json::Object(m) => {
                proof {
                    lemma_members_view_index(m@);
                }
                if m.len() == 2 && has_name(&m[0], "key") && has_name(&m[1], "value") {
                    match (TableValue::decode(&m[0].value), TableValue::decode(&m[1].value)) {
                        (Ok(k), Ok(v)) => Some(LuaKeyValuePair { key: k, value: v }),
                        _ => None,
                    }
                } else if m.len() == 2 && has_name(&m[0], "value") && has_name(&m[1], "key") {
                    match (TableValue::decode(&m[1].value), TableValue::decode(&m[0].value)) {
                        (Ok(k), Ok(v)) => Some(LuaKeyValuePair { key: k, value: v }),
                        _ => None,
                    }
                } else {
                    None
                }
            },
            _ => None,
        };
        match entry {
            Some(e) => {
                let ghost old_out = out@;
                out.push(e);
                proof {
                    assert(out@.subrange(0, out@.len() - 1) =~= old_out);
                }
            },
            None => {
                proof {
                    lemma_decode_pairs_prefix_fails(model, i + 1);
                }
                return Err(FormatError);
            },
        }
        i += 1;
    }
    proof {
        assert(model.subrange(0, i as int) =~= model);
    }
    Ok(PairedLuaTable { pairs: out })
}

impl PairedLuaTable {
    /// The wire form `{ "pairs": [ { "key": K, "value": V }, ... ] }` of this table.
    pub fn encode(&self) -> (r: Json)
        ensures
            r@ == encode_table(self@),
        decreases self,
    {
        proof {
            reveal_strlit("pairs");
            reveal_strlit("key");
            reveal_strlit("value");
        }
        let mut items: Vec<Json> = Vec::new();
        let mut i: usize = 0;
        while i < self.pairs.len()
            invariant
                i <= self.pairs.len(),
                items_view(items@) == encode_pairs(pairs_view(self.pairs@.subrange(0, i as int))),
            decreases self.pairs.len() - i,
        {
            let k = self.pairs[i].key.encode();
            let v = self.pairs[i].value.encode();
            let mut members: Vec<JsonMember> = Vec::new();
            members.push(JsonMember { name: String::from_str("key"), value: k });
            members.push(JsonMember { name: String::from_str("value"), value: v });
            let ghost old_items = items@;
            let entry = Json::Object(members);
            let ghost e = entry;
            proof {
                lemma_members_view_index(members@);
                assert(members_view(members@) =~= seq![
                    ("key"@, encode_value(self.pairs@[i as int].key@)),
                    ("value"@, encode_value(self.pairs@[i as int].value@)),
                ]);
            }
            items.push(entry);
            proof {
                let s = self.pairs@.subrange(0, i + 1);
                assert(s.subrange(0, i as int) =~= self.pairs@.subrange(0, i as int));
                assert(items@.subrange(0, items@.len() - 1) =~= old_items);
                let p = pairs_view(s);
                lemma_pairs_view_index(s);
                assert(p.subrange(0, p.len() - 1) =~= pairs_view(
                    self.pairs@.subrange(0, i as int),
                ));
                assert(s[i as int] == self.pairs@[i as int]);
                assert(items_view(items@) == items_view(old_items).push(json_view(e)));
                assert(json_view(e) == JsonModel::Object(
                    seq![("key"@, encode_value(p[i as int].0)), ("value"@, encode_value(p[i as int].1))],
                ));
            }
            i += 1;
        }
        proof {
            assert(self.pairs@.subrange(0, i as int) =~= self.pairs@);
        }
        let mut top: Vec<JsonMember> = Vec::new();
        top.push(JsonMember { name: String::from_str("pairs"), value: Json::Array(items) });
        proof {
            lemma_members_view_index(top@);
            assert(members_view(top@) =~= seq![
                ("pairs"@, JsonModel::Array(encode_pairs(self@))),
            ]);
        }
        Json::Object(top)
    }

    /// The table that `j` stands for; `FormatError` exactly when `j` is not a table in the
    /// pair-list form (wrong wrapper, wrong entry shape, or a value of no table type).
    pub fn decode(j: &Json) -> (r: Result<PairedLuaTable, FormatError>)
        ensures
            match r {
                Ok(t) => decode_table(j@) == Some(t@),
                Err(_) => decode_table(j@) is None,
            },
    {
        match TableValue::decode(j) {
            Ok(TableValue::Table(t)) => Ok(t),
            _ => Err(FormatError),
        }
    }
}

} // verus!
