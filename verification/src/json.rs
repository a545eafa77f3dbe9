//! JSON documents as trees, read and written with `serde_json`.
use serde_json::Value;
use vstd::prelude::*;

use crate::text;

verus! {

/// A JSON value of `serde_json`.
#[verifier::external_type_specification]
#[verifier::external_body]
pub struct ExValue(serde_json::Value);

/// A JSON number of `serde_json`.
#[verifier::external_type_specification]
#[verifier::external_body]
pub struct ExNumber(serde_json::Number);

/// A JSON number that is no integer of 64 bits, carried as it was read.
pub struct JsonFloat {
    number: serde_json::Number,
}

/// A JSON document.
pub enum Json {
    Null,
    Bool(bool),
    /// An integer from 0 up to `u64::MAX`.
    Unsigned(u64),
    /// A negative integer.
    Signed(i64),
    Float(JsonFloat),
    Text(String),
    Array(Vec<Json>),
    /// The members, in the ascending order of their names.
    Object(Vec<(String, Json)>),
}

/// What a JSON document holds.
pub enum JsonTree {
    Null,
    Bool(bool),
    Unsigned(u64),
    Signed(i64),
    Float(JsonFloat),
    Text(Seq<char>),
    Array(Seq<JsonTree>),
    Object(Seq<(Seq<char>, JsonTree)>),
}

impl View for Json {
    type V = JsonTree;

    open spec fn view(&self) -> JsonTree
        decreases self,
    {
        match *self {
            Json::Null => JsonTree::Null,
            Json::Bool(b) => JsonTree::Bool(b),
            Json::Unsigned(n) => JsonTree::Unsigned(n),
            Json::Signed(n) => JsonTree::Signed(n),
            Json::Float(f) => JsonTree::Float(f),
            Json::Text(s) => JsonTree::Text(s@),
            Json::Array(items) => JsonTree::Array(
                Seq::new(
                    items@.len(),
                    |i: int|
                        if 0 <= i < items@.len() {
                            items@[i].view()
                        } else {
                            JsonTree::Null
                        },
                ),
            ),
            Json::Object(members) => JsonTree::Object(
                Seq::new(
                    members@.len(),
                    |i: int|
                        if 0 <= i < members@.len() {
                            (members@[i].0@, members@[i].1.view())
                        } else {
                            (seq![], JsonTree::Null)
                        },
                ),
            ),
        }
    }
}

/// What the documents of an array hold.
pub open spec fn trees(items: Seq<Json>) -> Seq<JsonTree> {
    items.map_values(|j: Json| j@)
}

/// What the members of an object hold.
pub open spec fn member_trees(members: Seq<(String, Json)>) -> Seq<(Seq<char>, JsonTree)> {
    members.map_values(|m: (String, Json)| (m.0@, m.1@))
}

/// What an array of documents holds.
pub proof fn lemma_view_array(items: Vec<Json>)
    ensures
        Json::Array(items)@ == JsonTree::Array(trees(items@)),
{
    reveal_with_fuel(<Json as View>::view, 2);
    assert(Json::Array(items)@->Array_0 =~= trees(items@));
}

/// What an object of documents holds.
pub proof fn lemma_view_object(members: Vec<(String, Json)>)
    ensures
        Json::Object(members)@ == JsonTree::Object(member_trees(members@)),
{
    reveal_with_fuel(<Json as View>::view, 2);
    assert(Json::Object(members)@->Object_0 =~= member_trees(members@));
}

// Well-formed documents.

/// Whether the names of the members ascend strictly.
pub open spec fn names_ascend(members: Seq<(Seq<char>, JsonTree)>) -> bool {
    forall|i: int, j: int|
        0 <= i < j < members.len() ==> text::text_less(
            (#[trigger] members[i]).0,
            (#[trigger] members[j]).0,
        )
}

/// Whether a document is one that can be read: arrays and objects are nested
/// at most `depth` deep, the names of an object ascend, and a signed integer
/// is negative.
pub open spec fn well_formed(t: JsonTree, depth: nat) -> bool
    decreases depth,
{
    match t {
        JsonTree::Signed(n) => n < 0,
        JsonTree::Array(items) => depth > 0 && forall|i: int|
            0 <= i < items.len() ==> well_formed(#[trigger] items[i], (depth - 1) as nat),
        JsonTree::Object(members) => depth > 0 && names_ascend(members) && forall|i: int|
            0 <= i < members.len() ==> well_formed((#[trigger] members[i]).1, (depth - 1) as nat),
        _ => true,
    }
}

/// How deep the arrays and objects of a document that was read can be nested.
pub open spec fn max_depth() -> nat {
    127
}

/// Whether a document holds no number but integers of 64 bits.
pub open spec fn no_floats(t: JsonTree) -> bool
    decreases t,
{
    match t {
        JsonTree::Float(_) => false,
        JsonTree::Array(items) => forall|i: int|
            0 <= i < items.len() ==> no_floats(#[trigger] items[i]),
        JsonTree::Object(members) => forall|i: int|
            0 <= i < members.len() ==> no_floats((#[trigger] members[i]).1),
        _ => true,
    }
}

/// Whether two documents are the same, except that where one holds a number
/// other than an integer of 64 bits the other may hold another such number.
pub open spec fn alike(a: JsonTree, b: JsonTree) -> bool
    decreases a,
{
    match a {
        JsonTree::Float(_) => b is Float,
        JsonTree::Array(x) => b is Array && x.len() == b->Array_0.len() && forall|i: int|
            0 <= i < x.len() ==> alike(#[trigger] x[i], b->Array_0[i]),
        JsonTree::Object(x) => b is Object && x.len() == b->Object_0.len() && forall|i: int|
            0 <= i < x.len() ==> (#[trigger] x[i]).0 == b->Object_0[i].0 && alike(
                x[i].1,
                b->Object_0[i].1,
            ),
        _ => a == b,
    }
}

/// A document like one without fractions is that document.
pub proof fn lemma_alike_without_floats(a: JsonTree, b: JsonTree)
    requires
        alike(a, b),
        no_floats(b),
    ensures
        a == b,
    decreases a,
{
    match a {
        JsonTree::Array(x) => {
            let y = b->Array_0;
            assert forall|i: int| 0 <= i < x.len() implies #[trigger] x[i] == y[i] by {
                assert(alike(x[i], y[i]));
                assert(no_floats(y[i]));
                lemma_alike_without_floats(x[i], y[i]);
            }
            assert(x =~= y);
        },
        JsonTree::Object(x) => {
            let y = b->Object_0;
            assert forall|i: int| 0 <= i < x.len() implies #[trigger] x[i] == y[i] by {
                assert(alike(x[i].1, y[i].1));
                assert(no_floats(y[i].1));
                lemma_alike_without_floats(x[i].1, y[i].1);
            }
            assert(x =~= y);
        },
        _ => {},
    }
}

// Reading and writing.

/// What a JSON value of `serde_json` holds.
pub uninterp spec fn value_json(v: serde_json::Value) -> JsonTree;

/// The document that `serde_json::from_str` reads from `text`, or its message
/// where it reads none.
pub uninterp spec fn json_text(text: Seq<char>) -> Result<JsonTree, Seq<char>>;

/// Whether `text` is JSON for the document `t`.
pub open spec fn reads_as(text: Seq<char>, t: JsonTree) -> bool {
    json_text(text) == Ok::<JsonTree, Seq<char>>(t)
}

/// Whether `text` is no JSON, with the given message.
pub open spec fn fails_to_read(text: Seq<char>, message: Seq<char>) -> bool {
    json_text(text) == Err::<JsonTree, Seq<char>>(message)
}

/// The text that `serde_json::to_string_pretty` writes for a document.
pub uninterp spec fn json_pretty(t: JsonTree) -> Seq<char>;

/// `serde_json::from_str` into a `serde_json::Value`. The result is named; the
/// message of an error is the text that its `Display` writes. A value that is
/// read is well formed: the deserializer refuses the 128th level of nesting,
/// and a `serde_json::Map` keeps its names in ascending order, each once.
#[verifier::external_body]
fn value_from_str(text: &str) -> (r: Result<serde_json::Value, String>)
    ensures
        match r {
            Ok(v) => json_text(text@) == Ok::<JsonTree, Seq<char>>(value_json(v)) && well_formed(
                value_json(v),
                max_depth(),
            ),
            Err(e) => json_text(text@) == Err::<JsonTree, Seq<char>>(e@),
        },
{
    serde_json::from_str(text).map_err(|e: serde_json::Error| e.to_string())
}

/// The document that `serde_json::from_reader` reads from the bytes, or its
/// message where it reads none.
pub uninterp spec fn json_bytes(bytes: Seq<u8>) -> Result<JsonTree, Seq<char>>;

/// `serde_json::from_reader` into a `serde_json::Value`, from bytes. The result
/// is named; the message of an error is the text that its `Display` writes. A
/// value that is read is well formed, as one that is read from a string.
#[verifier::external_body]
fn value_from_reader(bytes: &Vec<u8>) -> (r: Result<serde_json::Value, String>)
    ensures
        match r {
            Ok(v) => json_bytes(bytes@) == Ok::<JsonTree, Seq<char>>(value_json(v)) && well_formed(
                value_json(v),
                max_depth(),
            ),
            Err(e) => json_bytes(bytes@) == Err::<JsonTree, Seq<char>>(e@),
        },
{
    serde_json::from_reader(bytes.as_slice()).map_err(|e: serde_json::Error| e.to_string())
}

/// Moves the fields of a `serde_json::Value` into a document. A number is an
/// integer exactly where `serde_json::Number::as_u64` or `as_i64` gives one.
#[verifier::external_body]
fn json_from_value(v: serde_json::Value) -> (r: Json)
    requires
        well_formed(value_json(v), max_depth()),
    ensures
        r@ == value_json(v),
{
    match v {
        Value::Null => Json::Null,
        Value::Bool(b) => Json::Bool(b),
        Value::Number(n) => match (n.as_u64(), n.as_i64()) {
            (Some(u), _) => Json::Unsigned(u),
            (_, Some(i)) => Json::Signed(i),
            _ => Json::Float(JsonFloat { number: n }),
        },
        Value::String(s) => Json::Text(s),
        Value::Array(a) => Json::Array(a.into_iter().map(json_from_value).collect()),
        Value::Object(m) => Json::Object(m.into_iter().map(|(k, v)| (k, json_from_value(v))).collect()),
    }
}

/// Moves the fields of a document into a `serde_json::Value`.
#[verifier::external_body]
fn value_from_json(j: Json) -> (r: serde_json::Value)
    requires
        well_formed(j@, max_depth()),
    ensures
        value_json(r) == j@,
{
    match j {
        Json::Null => Value::Null,
        Json::Bool(b) => Value::Bool(b),
        Json::Unsigned(n) => Value::from(n),
        Json::Signed(n) => Value::from(n),
        Json::Float(f) => Value::Number(f.number),
        Json::Text(s) => Value::String(s),
        Json::Array(a) => Value::Array(a.into_iter().map(value_from_json).collect()),
        Json::Object(m) => Value::Object(m.into_iter().map(|(k, v)| (k, value_from_json(v))).collect()),
    }
}

/// `serde_json::to_string_pretty` of a `serde_json::Value`. The text is named.
/// It is written for every value: a `Value` has no name that is not a string
/// and its `Serialize` has no error of its own. The text, with a line feed
/// behind it, reads back as the same document, except that the deserializer may
/// round a number other than an integer of 64 bits, or refuse it as out of
/// range: such a number is written with a point or an exponent, by which it is
/// told from an integer when it is read.
#[verifier::external_body]
fn value_to_string(v: &serde_json::Value) -> (r: Result<String, String>)
    requires
        well_formed(value_json(*v), max_depth()),
    ensures
        r is Ok,
        r->Ok_0@ == json_pretty(value_json(*v)),
        match json_text(r->Ok_0@.push('\n')) {
            Ok(t) => alike(t, value_json(*v)),
            Err(_) => !no_floats(value_json(*v)),
        },
{
    serde_json::to_string_pretty(v).map_err(|e| e.to_string())
}

/// Reads a JSON document.
pub fn parse_json(text: &str) -> (r: Result<Json, String>)
    ensures
        match r {
            Ok(j) => reads_as(text@, j@) && well_formed(j@, max_depth()),
            Err(e) => fails_to_read(text@, e@),
        },
{
    match value_from_str(text) {
        Ok(v) => Ok(json_from_value(v)),
        Err(e) => Err(e),
    }
}

/// Reads a JSON document from bytes.
pub fn parse_json_bytes(bytes: &Vec<u8>) -> (r: Result<Json, String>)
    ensures
        match r {
            Ok(j) => json_bytes(bytes@) == Ok::<JsonTree, Seq<char>>(j@) && well_formed(
                j@,
                max_depth(),
            ),
            Err(e) => json_bytes(bytes@) == Err::<JsonTree, Seq<char>>(e@),
        },
{
    match value_from_reader(bytes) {
        Ok(v) => Ok(json_from_value(v)),
        Err(e) => Err(e),
    }
}

/// What reading the text of a document again gives: the same document, except
/// that numbers other than integers of 64 bits may be rounded, or refused.
pub open spec fn reads_back(text: Seq<char>, t: JsonTree) -> bool {
    match json_text(text) {
        Ok(again) => alike(again, t) && (no_floats(t) ==> again == t),
        Err(_) => !no_floats(t),
    }
}

/// Writes a JSON document, indented. The text, with a line feed behind it, reads
/// back as the same document, except that numbers other than integers of 64 bits
/// may be rounded, or refused.
pub fn render_json(j: Json) -> (r: String)
    requires
        well_formed(j@, max_depth()),
    ensures
        r@ == json_pretty(j@),
        reads_back(r@.push('\n'), j@),
{
    let v = value_from_json(j);
    match value_to_string(&v) {
        Ok(s) => {
            proof {
                let back = json_text(s@.push('\n'));
                if back is Ok && no_floats(value_json(v)) {
                    lemma_alike_without_floats(back->Ok_0, value_json(v));
                }
            }
            s
        },
        Err(e) => e,
    }
}

// Looking into a document.

/// The position of the first member of the given name, or the number of
/// members.
pub open spec fn name_index(members: Seq<(Seq<char>, JsonTree)>, name: Seq<char>) -> int
    decreases members.len(),
{
    if members.len() == 0 || members[0].0 == name {
        0
    } else {
        1 + name_index(members.skip(1), name)
    }
}

/// The member of the given name, where the document is an object that has it.
pub open spec fn member(t: JsonTree, name: Seq<char>) -> Option<JsonTree> {
    match t {
        JsonTree::Object(members) => if name_index(members, name) < members.len() {
            Some(members[name_index(members, name)].1)
        } else {
            None
        },
        _ => None,
    }
}

/// The string that a document is, where it is one.
pub open spec fn text_of(t: JsonTree) -> Option<Seq<char>> {
    match t {
        JsonTree::Text(s) => Some(s),
        _ => None,
    }
}

/// The string under the given name, where there is one.
pub open spec fn text_member(t: JsonTree, name: Seq<char>) -> Option<Seq<char>> {
    match member(t, name) {
        Some(m) => text_of(m),
        None => None,
    }
}

/// The names of the members, in their order; none where the document is no
/// object.
pub open spec fn member_names(t: JsonTree) -> Seq<Seq<char>> {
    match t {
        JsonTree::Object(members) => members.map_values(|m: (Seq<char>, JsonTree)| m.0),
        _ => seq![],
    }
}

/// What stands in `t` under the names of `path`, one inside the other.
pub open spec fn at_path(t: JsonTree, path: Seq<Seq<char>>) -> Option<JsonTree>
    decreases path.len(),
{
    if path.len() == 0 {
        Some(t)
    } else {
        match member(t, path[0]) {
            Some(m) => at_path(m, path.skip(1)),
            None => None,
        }
    }
}

/// `t` with `v` in place of what stands under the names of `path`.
pub open spec fn set_path(t: JsonTree, path: Seq<Seq<char>>, v: JsonTree) -> JsonTree
    decreases path.len(),
{
    if path.len() == 0 {
        v
    } else {
        match t {
            JsonTree::Object(members) => {
                let i = name_index(members, path[0]);
                if i < members.len() {
                    JsonTree::Object(
                        members.update(
                            i,
                            (members[i].0, set_path(members[i].1, path.skip(1), v)),
                        ),
                    )
                } else {
                    t
                }
            },
            _ => t,
        }
    }
}

/// `name_index` is the least position of a name, or the number of members.
pub proof fn lemma_name_index(members: Seq<(Seq<char>, JsonTree)>, name: Seq<char>)
    ensures
        0 <= name_index(members, name) <= members.len(),
        name_index(members, name) < members.len() ==> members[name_index(members, name)].0 == name,
        forall|i: int| 0 <= i < name_index(members, name) ==> (#[trigger] members[i]).0 != name,
    decreases members.len(),
{
    if members.len() > 0 && members[0].0 != name {
        lemma_name_index(members.skip(1), name);
        assert forall|i: int| 0 <= i < name_index(members, name) implies (
        #[trigger] members[i]).0 != name by {
            if i > 0 {
                assert(members[i] == members.skip(1)[i - 1]);
            }
        }
    }
}

/// The names alone decide which member is found.
proof fn lemma_name_index_same_names(
    a: Seq<(Seq<char>, JsonTree)>,
    b: Seq<(Seq<char>, JsonTree)>,
    name: Seq<char>,
)
    requires
        a.len() == b.len(),
        forall|i: int| 0 <= i < a.len() ==> (#[trigger] a[i]).0 == b[i].0,
    ensures
        name_index(a, name) == name_index(b, name),
    decreases a.len(),
{
    if a.len() > 0 {
        assert(a[0].0 == b[0].0);
        if a[0].0 != name {
            assert forall|i: int| 0 <= i < a.skip(1).len() implies (#[trigger] a.skip(1)[i]).0
                == b.skip(1)[i].0 by {
                assert(a.skip(1)[i] == a[i + 1]);
            }
            lemma_name_index_same_names(a.skip(1), b.skip(1), name);
        }
    }
}

/// What was put under a path stands there, and putting something else there
/// leaves nothing of it.
pub proof fn lemma_set_path_here(t: JsonTree, path: Seq<Seq<char>>, v: JsonTree, w: JsonTree)
    requires
        at_path(t, path) is Some,
    ensures
        at_path(set_path(t, path, v), path) == Some(v),
        set_path(set_path(t, path, v), path, w) == set_path(t, path, w),
    decreases path.len(),
{
    if path.len() > 0 {
        let members = t->Object_0;
        let i = name_index(members, path[0]);
        lemma_name_index(members, path[0]);
        lemma_set_path_here(members[i].1, path.skip(1), v, w);
        let after = set_path(t, path, v)->Object_0;
        lemma_name_index_same_names(members, after, path[0]);
        assert(set_path(set_path(t, path, v), path, w)->Object_0 =~= set_path(
            t,
            path,
            w,
        )->Object_0);
    }
}

/// What stands under a path that neither leads to `path` nor passes through it
/// stays as it is when something is put under `path`.
pub proof fn lemma_set_path_elsewhere(
    t: JsonTree,
    path: Seq<Seq<char>>,
    v: JsonTree,
    other: Seq<Seq<char>>,
)
    requires
        !path.is_prefix_of(other),
        !other.is_prefix_of(path),
    ensures
        at_path(set_path(t, path, v), other) == at_path(t, other),
    decreases path.len(),
{
    assert(path.len() > 0) by {
        assert(path.len() == 0 ==> path =~= other.subrange(0, 0));
    }
    assert(other.len() > 0) by {
        assert(other.len() == 0 ==> other =~= path.subrange(0, 0));
    }
    if t is Object {
        let members = t->Object_0;
        let i = name_index(members, path[0]);
        lemma_name_index(members, path[0]);
        if i < members.len() {
            let after = set_path(t, path, v)->Object_0;
            lemma_name_index_same_names(members, after, other[0]);
            lemma_name_index(members, other[0]);
            if path[0] == other[0] {
                assert(path =~= seq![path[0]] + path.skip(1));
                assert(other =~= seq![other[0]] + other.skip(1));
                assert(path.skip(1).is_prefix_of(other.skip(1)) ==> path.is_prefix_of(other));
                assert(other.skip(1).is_prefix_of(path.skip(1)) ==> other.is_prefix_of(path));
                lemma_set_path_elsewhere(members[i].1, path.skip(1), v, other.skip(1));
            }
        }
    }
}

/// Putting something well formed under a path keeps a document well formed.
pub proof fn lemma_set_path_well_formed(
    t: JsonTree,
    path: Seq<Seq<char>>,
    v: JsonTree,
    depth: nat,
)
    requires
        at_path(t, path) is Some,
        well_formed(t, depth),
        path.len() <= depth,
        well_formed(v, (depth - path.len()) as nat),
    ensures
        well_formed(set_path(t, path, v), depth),
        well_formed(at_path(t, path)->0, (depth - path.len()) as nat),
    decreases path.len(),
{
    if path.len() > 0 {
        let members = t->Object_0;
        let i = name_index(members, path[0]);
        lemma_name_index(members, path[0]);
        assert(well_formed(members[i].1, (depth - 1) as nat));
        lemma_set_path_well_formed(members[i].1, path.skip(1), v, (depth - 1) as nat);
        let after = set_path(t, path, v)->Object_0;
        assert(names_ascend(after)) by {
            assert forall|a: int, b: int| 0 <= a < b < after.len() implies text::text_less(
                (#[trigger] after[a]).0,
                (#[trigger] after[b]).0,
            ) by {
                assert(after[a].0 == members[a].0 && after[b].0 == members[b].0);
            }
        }
    }
}

/// Putting something without fractions under a path keeps a document without
/// fractions.
pub proof fn lemma_set_path_no_floats(t: JsonTree, path: Seq<Seq<char>>, v: JsonTree)
    requires
        no_floats(t),
        no_floats(v),
    ensures
        no_floats(set_path(t, path, v)),
        at_path(t, path) is Some ==> no_floats(at_path(t, path)->0),
    decreases path.len(),
{
    if path.len() > 0 && t is Object {
        let members = t->Object_0;
        let i = name_index(members, path[0]);
        lemma_name_index(members, path[0]);
        if i < members.len() {
            assert(no_floats(members[i].1));
            lemma_set_path_no_floats(members[i].1, path.skip(1), v);
        }
    }
}

/// Documents that are alike hold like documents under every path.
pub proof fn lemma_alike_at_path(a: JsonTree, b: JsonTree, path: Seq<Seq<char>>)
    requires
        alike(a, b),
    ensures
        at_path(a, path) is Some <==> at_path(b, path) is Some,
        at_path(a, path) is Some ==> alike(at_path(a, path)->0, at_path(b, path)->0),
    decreases path.len(),
{
    if path.len() > 0 && a is Object {
        let x = a->Object_0;
        let y = b->Object_0;
        lemma_name_index_same_names(x, y, path[0]);
        lemma_name_index(x, path[0]);
        let i = name_index(x, path[0]);
        if i < x.len() {
            assert(alike(x[i].1, y[i].1));
            lemma_alike_at_path(x[i].1, y[i].1, path.skip(1));
        }
    }
}

/// The position of the first member of the given name, or the number of
/// members.
fn find_name(members: &Vec<(String, Json)>, name: &str) -> (r: usize)
    ensures
        r == name_index(member_trees(members@), name@),
        r <= members@.len(),
{
    let wanted = name.to_owned();
    let ghost model = member_trees(members@);
    let mut i: usize = 0;
    assert(model.skip(0) =~= model);
    while i < members.len()
        invariant
            i <= members@.len(),
            wanted@ == name@,
            model == member_trees(members@),
            i + name_index(model.skip(i as int), name@) == name_index(model, name@),
        decreases members@.len() - i,
    {
        assert(model[i as int].0 == members@[i as int].0@);
        if members[i].0 == wanted {
            return i;
        }
        assert(model.skip(i as int).skip(1) =~= model.skip(i as int + 1));
        i = i + 1;
    }
    i
}

impl Json {
    /// The member of the given name, where the document is an object that has
    /// it.
    pub fn get(&self, name: &str) -> (r: Option<&Json>)
        ensures
            match r {
                Some(m) => member(self@, name@) == Some(m@),
                None => member(self@, name@) is None,
            },
    {
        match self {
            Json::Object(members) => {
                proof {
                    lemma_view_object(*members);
                }
                let i = find_name(members, name);
                if i < members.len() {
                    Some(&members[i].1)
                } else {
                    None
                }
            },
            _ => None,
        }
    }

    /// The names of the members, in their order; none where the document is no
    /// object.
    pub fn names(&self) -> (r: Vec<String>)
        ensures
            text::texts(r@) == member_names(self@),
    {
        let mut r: Vec<String> = Vec::new();
        match self {
            Json::Object(members) => {
                proof {
                    lemma_view_object(*members);
                }
                let ghost all = member_names(self@);
                for i in 0..members.len()
                    invariant
                        all == member_trees(members@).map_values(|m: (Seq<char>, JsonTree)| m.0),
                        text::texts(r@) == all.take(i as int),
                {
                    let ghost before = r@;
                    r.push(members[i].0.clone());
                    proof {
                        assert(r@.last()@ == all[i as int]);
                        assert(text::texts(r@) =~= text::texts(before).push(all[i as int]));
                        assert(text::texts(r@) =~= all.take(i as int + 1));
                    }
                }
                assert(text::texts(r@) =~= all);
            },
            _ => {
                assert(text::texts(r@) =~= member_names(self@));
            },
        }
        r
    }

    /// The string that the document is, where it is one.
    pub fn as_text(&self) -> (r: Option<&str>)
        ensures
            match r {
                Some(s) => text_of(self@) == Some(s@),
                None => text_of(self@) is None,
            },
    {
        match self {
            Json::Text(s) => Some(s.as_str()),
            _ => None,
        }
    }

    /// The string under the given name, where there is one.
    pub fn get_text(&self, name: &str) -> (r: Option<&str>)
        ensures
            match r {
                Some(s) => text_member(self@, name@) == Some(s@),
                None => text_member(self@, name@) is None,
            },
    {
        match self.get(name) {
            Some(m) => m.as_text(),
            None => None,
        }
    }
}

/// What stands in `j` under the names of `path` from position `from` on.
pub fn find_path<'a>(j: &'a Json, path: &Vec<String>, from: usize) -> (r: Option<&'a Json>)
    requires
        from <= path@.len(),
    ensures
        match r {
            Some(v) => at_path(j@, text::texts(path@).skip(from as int)) == Some(v@),
            None => at_path(j@, text::texts(path@).skip(from as int)) is None,
        },
    decreases path@.len() - from,
{
    let ghost names = text::texts(path@).skip(from as int);
    if from == path.len() {
        return Some(j);
    }
    assert(names.skip(1) =~= text::texts(path@).skip(from as int + 1));
    match j.get(path[from].as_str()) {
        Some(m) => find_path(m, path, from + 1),
        None => None,
    }
}

/// Puts `v` under the names of `path` from position `from` on, and gives back
/// what stood there.
pub fn swap_at(j: Json, path: &Vec<String>, from: usize, v: Json) -> (r: (Json, Json))
    requires
        from <= path@.len(),
        at_path(j@, text::texts(path@).skip(from as int)) is Some,
    ensures
        r.0@ == set_path(j@, text::texts(path@).skip(from as int), v@),
        Some(r.1@) == at_path(j@, text::texts(path@).skip(from as int)),
    decreases path@.len() - from,
{
    let ghost names = text::texts(path@).skip(from as int);
    if from == path.len() {
        return (v, j);
    }
    assert(names.skip(1) =~= text::texts(path@).skip(from as int + 1));
    match j {
        Json::Object(members) => {
            let mut members = members;
            proof {
                lemma_view_object(members);
            }
            let ghost before = member_trees(members@);
            let i = find_name(&members, path[from].as_str());
            let (name, inner) = members.remove(i);
            assert(before[i as int] == (name@, inner@));
            let (inner, old_value) = swap_at(inner, path, from + 1, v);
            members.insert(i, (name, inner));
            proof {
                lemma_view_object(members);
                assert(member_trees(members@) =~= before.update(i as int, (name@, inner@)));
            }
            (Json::Object(members), old_value)
        },
        _ => (v, j),
    }
}

// Laws.

/// The member of a name is the first one that bears it, and there is none exactly
/// where no member of an object bears it, or the document is no object.
pub proof fn lemma_members(t: JsonTree, name: Seq<char>)
    ensures
        member(t, name) is None <==> !(t is Object) || forall|i: int|
            0 <= i < t->Object_0.len() ==> (#[trigger] t->Object_0[i]).0 != name,
        member(t, name) is Some ==> t is Object && exists|i: int|
            0 <= i < t->Object_0.len() && #[trigger] t->Object_0[i] == (name, member(
                t,
                name,
            )->0) && forall|k: int| 0 <= k < i ==> (#[trigger] t->Object_0[k]).0 != name,
        text_member(t, name) == (match member(t, name) {
            Some(JsonTree::Text(s)) => Some(s),
            _ => None,
        }),
        t is Object ==> member_names(t).len() == t->Object_0.len() && forall|i: int|
            0 <= i < t->Object_0.len() ==> #[trigger] member_names(t)[i] == t->Object_0[i].0,
        !(t is Object) ==> member_names(t).len() == 0,
{
    if t is Object {
        let members = t->Object_0;
        lemma_name_index(members, name);
        let i = name_index(members, name);
        if i < members.len() {
            assert(members[i].0 == name);
            assert(members[i] == (name, member(t, name)->0));
        }
    }
}

/// What stands under a path is found step by step: under one path behind another
/// stands what stands under the second one in what stands under the first.
pub proof fn lemma_paths(t: JsonTree, a: Seq<Seq<char>>, b: Seq<Seq<char>>)
    ensures
        at_path(t, Seq::<Seq<char>>::empty()) == Some(t),
        a.len() == 1 ==> at_path(t, a) == member(t, a[0]),
        at_path(t, a + b) == (match at_path(t, a) {
            Some(m) => at_path(m, b),
            None => None,
        }),
    decreases a.len(),
{
    if a.len() > 0 {
        assert((a + b).skip(1) =~= a.skip(1) + b);
        assert((a + b)[0] == a[0]);
        if let Some(m) = member(t, a[0]) {
            lemma_paths(m, a.skip(1), b);
            if a.len() == 1 {
                assert(a.skip(1).len() == 0);
            }
        }
    } else {
        assert(a + b =~= b);
    }
}

} // verus!
