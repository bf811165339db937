//! The mapping from variables to ROS topics and their message types.
use vstd::prelude::*;

use crate::text::{string_concat, string_eq, string_from_str};

verus! {

/// The ROS message types that can be read.
#[derive(Debug, Clone, Copy, PartialEq, Eq, Structural)]
pub enum ROSMsgType {
    Bool,
    String,
    Int64,
    Int32,
    Int16,
    Int8,
    Float64,
    Float32,
    Human,
    HumanList,
    HumanBodyPart,
}

/// The topic a variable is read from and the type of its messages.
#[derive(Debug, Clone)]
pub struct VariableMappingData {
    pub topic: String,
    pub msg_type: ROSMsgType,
}

/// Why a mapping could not be read.
#[derive(Debug, Clone, PartialEq, Eq)]
pub enum RosMappingError {
    /// The text is not JSON5; the parser's message.
    Parse(String),
    /// The document is not a JSON object.
    NotObject,
    /// The topic or the message type of the named variable is not a string.
    FieldsNotStrings(String),
    /// The topic or the message type of the named variable is missing.
    MissingField(String),
    /// The named message type is not supported.
    UnsupportedType(String),
}

/// The message type with the given name, if it is supported.
pub open spec fn spec_ros_msg_type(s: Seq<char>) -> Option<ROSMsgType> {
    if s == "Bool"@ {
        Some(ROSMsgType::Bool)
    } else if s == "String"@ {
        Some(ROSMsgType::String)
    } else if s == "Int64"@ {
        Some(ROSMsgType::Int64)
    } else if s == "Int32"@ {
        Some(ROSMsgType::Int32)
    } else if s == "Int16"@ {
        Some(ROSMsgType::Int16)
    } else if s == "Int8"@ {
        Some(ROSMsgType::Int8)
    } else if s == "Float64"@ {
        Some(ROSMsgType::Float64)
    } else if s == "Float32"@ {
        Some(ROSMsgType::Float32)
    } else if s == "Human"@ {
        Some(ROSMsgType::Human)
    } else if s == "HumanList"@ {
        Some(ROSMsgType::HumanList)
    } else if s == "HumanBodyPart"@ {
        Some(ROSMsgType::HumanBodyPart)
    } else {
        None
    }
}

/// The name a message type is written with.
pub open spec fn ros_type_name(t: ROSMsgType) -> Seq<char> {
    match t {
        ROSMsgType::Bool => "Bool"@,
        ROSMsgType::String => "String"@,
        ROSMsgType::Int64 => "Int64"@,
        ROSMsgType::Int32 => "Int32"@,
        ROSMsgType::Int16 => "Int16"@,
        ROSMsgType::Int8 => "Int8"@,
        ROSMsgType::Float64 => "Float64"@,
        ROSMsgType::Float32 => "Float32"@,
        ROSMsgType::Human => "Human"@,
        ROSMsgType::HumanList => "HumanList"@,
        ROSMsgType::HumanBodyPart => "HumanBodyPart"@,
    }
}

/// A name is read as a message type exactly when it is that type's name: each
/// type is read back from its own name, and no other text is read as it.
pub proof fn lemma_ros_msg_type_names(s: Seq<char>, t: ROSMsgType)
    ensures
        spec_ros_msg_type(s) == Some(t) <==> s == ros_type_name(t),
{
    reveal_strlit("Bool");
    reveal_strlit("String");
    reveal_strlit("Int64");
    reveal_strlit("Int32");
    reveal_strlit("Int16");
    reveal_strlit("Int8");
    reveal_strlit("Float64");
    reveal_strlit("Float32");
    reveal_strlit("Human");
    reveal_strlit("HumanList");
    reveal_strlit("HumanBodyPart");
    assert("Bool"@.len() == 4 && "Int8"@.len() == 4 && "String"@.len() == 6);
    assert("Int64"@.len() == 5 && "Int32"@.len() == 5 && "Int16"@.len() == 5 && "Human"@.len() == 5);
    assert("Float64"@.len() == 7 && "Float32"@.len() == 7);
    assert("HumanList"@.len() == 9 && "HumanBodyPart"@.len() == 13);
    assert("Bool"@[0] == 'B' && "Int8"@[0] == 'I' && "Human"@[0] == 'H');
    assert("Int64"@[0] == 'I' && "Int32"@[0] == 'I' && "Int16"@[0] == 'I');
    assert("Int64"@[3] == '6' && "Int32"@[3] == '3' && "Int16"@[3] == '1');
    assert("Float64"@[5] == '6' && "Float32"@[5] == '3');
}

/// Whether `s` spells `lit`.
fn is(s: &String, lit: &str) -> (r: bool)
    ensures
        r == (s@ == lit@),
{
    string_eq(s, &string_from_str(lit))
}

/// The message type named `typ`; an error naming it when it is not
/// supported.
pub fn string_to_ros_msg_type(typ: &str) -> (r: Result<ROSMsgType, RosMappingError>)
    ensures
        r matches Ok(t) ==> spec_ros_msg_type(typ@) == Some(t),
        r is Err ==> spec_ros_msg_type(typ@) is None && error_view(r->Err_0) == (4int, typ@),
{
    let s = string_from_str(typ);
    if is(&s, "Bool") {
        Ok(ROSMsgType::Bool)
    } else if is(&s, "String") {
        Ok(ROSMsgType::String)
    } else if is(&s, "Int64") {
        Ok(ROSMsgType::Int64)
    } else if is(&s, "Int32") {
        Ok(ROSMsgType::Int32)
    } else if is(&s, "Int16") {
        Ok(ROSMsgType::Int16)
    } else if is(&s, "Int8") {
        Ok(ROSMsgType::Int8)
    } else if is(&s, "Float64") {
        Ok(ROSMsgType::Float64)
    } else if is(&s, "Float32") {
        Ok(ROSMsgType::Float32)
    } else if is(&s, "Human") {
        Ok(ROSMsgType::Human)
    } else if is(&s, "HumanList") {
        Ok(ROSMsgType::HumanList)
    } else if is(&s, "HumanBodyPart") {
        Ok(ROSMsgType::HumanBodyPart)
    } else {
        Err(RosMappingError::UnsupportedType(s))
    }
}

/// A member of a JSON object as the mapping reads it: absent, a string, or
/// another value.
#[derive(Debug, Clone, PartialEq, Eq)]
pub enum JsonField {
    Missing,
    Str(String),
    NotStr,
}

/// A field by its view.
pub ghost enum FieldV {
    Missing,
    Str(Seq<char>),
    NotStr,
}

/// The view of a field.
pub open spec fn field_view(f: JsonField) -> FieldV {
    match f {
        JsonField::Missing => FieldV::Missing,
        JsonField::Str(s) => FieldV::Str(s@),
        JsonField::NotStr => FieldV::NotStr,
    }
}

/// A member of the mapping document: the variable's name with the members
/// of its value (none when the value is not an object), each a string or
/// something else.
pub type MappingMember = (String, Vec<(String, JsonField)>);

/// The views of the fields of a member.
pub open spec fn fields_view(fs: Seq<(String, JsonField)>) -> Seq<(Seq<char>, FieldV)> {
    fs.map_values(|f: (String, JsonField)| (f.0@, field_view(f.1)))
}

/// The views of the members.
pub open spec fn member_views(ms: Seq<MappingMember>) -> Seq<(Seq<char>, Seq<(Seq<char>, FieldV)>)> {
    ms.map_values(|m: MappingMember| (m.0@, fields_view(m.1@)))
}

/// `serde_json5::from_str` into a `serde_json::Value`: for an object, each
/// member's name with the members of its value (none for a value that is
/// not an object), each told apart as a string or something else; `None`
/// for a document that is not an object, and the parser's message for text
/// that does not parse. The parser gives up on deeply nested text depending
/// on the stack left where it runs, so what comes back is not stated as a
/// function of the text.
#[verifier::external_body]
fn parse_mapping_document(text: &str) -> (r: Result<Option<Vec<MappingMember>>, String>) {
    let field = |x: &serde_json::Value| x.as_str().map_or(JsonField::NotStr, |s| JsonField::Str(s.to_string()));
    let fields = |d: &serde_json::Value|
        d.as_object().map_or(Vec::new(), |o| o.iter().map(|(k, x)| (k.clone(), field(x))).collect());
    match serde_json5::from_str::<serde_json::Value>(text) {
        Err(e) => Err(e.to_string()),
        Ok(v) => Ok(v.as_object().map(|o| o.iter().map(|(k, d)| (k.clone(), fields(d))).collect())),
    }
}

/// The field called `key`: the first member of that name, or missing.
pub open spec fn lookup(fields: Seq<(Seq<char>, FieldV)>, key: Seq<char>) -> FieldV
    decreases fields.len(),
{
    if fields.len() == 0 {
        FieldV::Missing
    } else if fields[0].0 == key {
        fields[0].1
    } else {
        lookup(fields.drop_first(), key)
    }
}

/// The field called `key`.
fn field_named(fields: &Vec<(String, JsonField)>, key: &str) -> (r: JsonField)
    ensures
        field_view(r) == lookup(fields_view(fields@), key@),
{
    let ghost fv = fields_view(fields@);
    let k = string_from_str(key);
    assert(fv.subrange(0, fv.len() as int) =~= fv);
    let mut i: usize = 0;
    while i < fields.len()
        invariant
            i <= fields@.len(),
            fv == fields_view(fields@),
            k@ == key@,
            lookup(fv, key@) == lookup(fv.subrange(i as int, fv.len() as int), key@),
        decreases fields@.len() - i,
    {
        let ghost rest = fv.subrange(i as int, fv.len() as int);
        assert(rest[0] == (fields@[i as int].0@, field_view(fields@[i as int].1)));
        if string_eq(&fields[i].0, &k) {
            return match &fields[i].1 {
                JsonField::Missing => JsonField::Missing,
                JsonField::Str(s) => JsonField::Str(s.clone()),
                JsonField::NotStr => JsonField::NotStr,
            };
        }
        assert(rest.drop_first() =~= fv.subrange(i + 1, fv.len() as int));
        i = i + 1;
    }
    JsonField::Missing
}

/// Variables with their topics and message types; each variable once.
pub struct ROSStreamMapping {
    entries: Vec<(String, VariableMappingData)>,
}

/// The views of mapping entries.
pub open spec fn entry_views(es: Seq<(String, VariableMappingData)>) -> Seq<(Seq<char>, Seq<char>, ROSMsgType)> {
    es.map_values(|e: (String, VariableMappingData)| (e.0@, e.1.topic@, e.1.msg_type))
}

/// `entries` with the entry for `name` set: replaced where it is, else added
/// at the end.
pub open spec fn set_entry(
    entries: Seq<(Seq<char>, Seq<char>, ROSMsgType)>,
    name: Seq<char>,
    topic: Seq<char>,
    t: ROSMsgType,
) -> Seq<(Seq<char>, Seq<char>, ROSMsgType)> {
    if exists|i: int| 0 <= i < entries.len() && entries[i].0 == name {
        let i = choose|i: int| 0 <= i < entries.len() && entries[i].0 == name;
        entries.update(i, (name, topic, t))
    } else {
        entries.push((name, topic, t))
    }
}

/// Reading the first `k` members: the entries so far, or the first error.
pub open spec fn read_members(ms: Seq<(Seq<char>, Seq<(Seq<char>, FieldV)>)>, k: int) -> Result<
    Seq<(Seq<char>, Seq<char>, ROSMsgType)>,
    (int, Seq<char>),
>
    decreases k,
{
    if k <= 0 {
        Ok(Seq::empty())
    } else {
        match read_members(ms, k - 1) {
            Err(e) => Err(e),
            Ok(es) => {
                let name = ms[k - 1].0;
                let topic = lookup(ms[k - 1].1, "topic"@);
                let typ = lookup(ms[k - 1].1, "msg_type"@);
                match (topic, typ) {
                    (FieldV::Str(t), FieldV::Str(ty)) => match spec_ros_msg_type(ty) {
                        Some(rt) => Ok(set_entry(es, name, t, rt)),
                        None => Err((4, ty)),
                    },
                    (FieldV::Missing, _) => Err((3, name)),
                    (_, FieldV::Missing) => Err((3, name)),
                    _ => Err((2, name)),
                }
            },
        }
    }
}

/// An error by its kind and the text it carries.
pub open spec fn error_view(e: RosMappingError) -> (int, Seq<char>) {
    match e {
        RosMappingError::Parse(s) => (0, s@),
        RosMappingError::NotObject => (1, Seq::empty()),
        RosMappingError::FieldsNotStrings(s) => (2, s@),
        RosMappingError::MissingField(s) => (3, s@),
        RosMappingError::UnsupportedType(s) => (4, s@),
    }
}

impl ROSStreamMapping {
    #[verifier::type_invariant]
    spec fn inv(&self) -> bool {
        forall|i: int, j: int|
            0 <= i < j < self.entries@.len() ==> #[trigger] self.entries@[i].0@ != #[trigger] self.entries@[j].0@
    }

    /// The entries: variable, topic and message type.
    pub closed spec fn view_entries(&self) -> Seq<(Seq<char>, Seq<char>, ROSMsgType)> {
        entry_views(self.entries@)
    }

    /// The number of variables mapped.
    pub fn len(&self) -> (r: usize)
        ensures
            r == self.view_entries().len(),
    {
        self.entries.len()
    }

    /// The topic and message type of variable `name`, if it is mapped.
    pub fn get(&self, name: &str) -> (r: Option<&VariableMappingData>)
        ensures
            r matches Some(d) ==> exists|i: int|
                0 <= i < self.view_entries().len() && self.view_entries()[i] == (
                    name@,
                    d.topic@,
                    d.msg_type,
                ),
            r is None ==> forall|i: int| 0 <= i < self.view_entries().len() ==> self.view_entries()[i].0 != name@,
    {
        let key = string_from_str(name);
        let mut i: usize = 0;
        while i < self.entries.len()
            invariant
                i <= self.entries@.len(),
                key@ == name@,
                forall|j: int| 0 <= j < i ==> self.view_entries()[j].0 != name@,
            decreases self.entries@.len() - i,
        {
            if string_eq(&self.entries[i].0, &key) {
                assert(self.view_entries()[i as int] == (name@, self.entries@[i as int].1.topic@, self.entries@[i as int].1.msg_type));
                return Some(&self.entries[i].1);
            }
            i = i + 1;
        }
        None
    }

    /// The position of the entry for `name`, if there is one.
    fn position(&self, name: &String) -> (r: Option<usize>)
        ensures
            r matches Some(i) ==> i < self.view_entries().len() && self.view_entries()[i as int].0 == name@,
            r is None ==> forall|j: int| 0 <= j < self.view_entries().len() ==> self.view_entries()[j].0 != name@,
    {
        let mut i: usize = 0;
        while i < self.entries.len()
            invariant
                i <= self.entries@.len(),
                forall|j: int| 0 <= j < i ==> self.view_entries()[j].0 != name@,
            decreases self.entries@.len() - i,
        {
            if string_eq(&self.entries[i].0, name) {
                return Some(i);
            }
            i = i + 1;
        }
        None
    }

    /// Sets the entry of `name`: replaces it where it is, else adds it.
    fn set(&mut self, name: String, data: VariableMappingData)
        ensures
            final(self).view_entries() == set_entry(old(self).view_entries(), name@, data.topic@, data.msg_type),
    {
        proof {
            use_type_invariant(&*self);
        }
        let ghost es = self.view_entries();
        let ghost orig = self.entries@;
        let ghost n = name@;
        let ghost t = data.topic@;
        let ghost ty = data.msg_type;
        let pos = self.position(&name);
        let mut entries: Vec<(String, VariableMappingData)> = Vec::new();
        std::mem::swap(&mut entries, &mut self.entries);
        assert(entries@ == orig);
        match pos {
            Some(i) => {
                entries.set(i, (name, data));
                proof {
                    let k = choose|k: int| 0 <= k < es.len() && es[k].0 == n;
                    if k != i {
                        assert(orig[i as int].0@ == orig[k].0@);
                        if k < i {
                            assert(orig[k].0@ != orig[i as int].0@);
                        } else {
                            assert(orig[i as int].0@ != orig[k].0@);
                        }
                    }
                    assert(entry_views(entries@) =~= es.update(i as int, (n, t, ty)));
                    assert forall|a: int, b: int|
                        0 <= a < b < entries@.len() implies #[trigger] entries@[a].0@ != #[trigger] entries@[b].0@ by {
                        if a != i && b != i {
                            assert(entries@[a] == orig[a] && entries@[b] == orig[b]);
                        } else if a == i {
                            assert(entries@[b] == orig[b]);
                            assert(orig[a].0@ != orig[b].0@);
                        } else {
                            assert(entries@[a] == orig[a]);
                            assert(orig[a].0@ != orig[b].0@);
                        }
                    }
                }
            },
            None => {
                entries.push((name, data));
                proof {
                    assert(entry_views(entries@) =~= es.push((n, t, ty)));
                    assert forall|a: int, b: int|
                        0 <= a < b < entries@.len() implies #[trigger] entries@[a].0@ != #[trigger] entries@[b].0@ by {
                        if b == entries@.len() - 1 {
                            assert(es[a].0 != n);
                            assert(entries@[a] == orig[a]);
                        } else {
                            assert(entries@[a] == orig[a] && entries@[b] == orig[b]);
                        }
                    }
                }
            },
        }
        self.entries = entries;
    }
}

/// Reads the mapping from the members of a mapping document, in order:
/// each member gives a variable's `topic` and `msg_type`, and the first
/// member that does not stops the reading with its error.
pub fn mapping_from_members(members: &Vec<MappingMember>) -> (r: Result<ROSStreamMapping, RosMappingError>)
    ensures
        match read_members(member_views(members@), members@.len() as int) {
            Ok(es) => r is Ok && r->Ok_0.view_entries() == es,
            Err(e) => r is Err && error_view(r->Err_0) == e,
        },
{
    let ghost mv = member_views(members@);
    let mut map = ROSStreamMapping { entries: Vec::new() };
    assert(map.view_entries() =~= Seq::<(Seq<char>, Seq<char>, ROSMsgType)>::empty());
    let mut k: usize = 0;
    while k < members.len()
        invariant
            k <= members@.len(),
            mv == member_views(members@),
            read_members(mv, k as int) == Ok::<_, (int, Seq<char>)>(map.view_entries()),
        decreases members@.len() - k,
    {
        let name = &members[k].0;
        assert(mv[k as int] == (name@, fields_view(members@[k as int].1@)));
        let topic = field_named(&members[k].1, "topic");
        let typ = field_named(&members[k].1, "msg_type");
        proof {
            lemma_read_members_settled(mv, k + 1, mv.len() as int);
        }
        match (topic, typ) {
            (JsonField::Str(t), JsonField::Str(ty)) => {
                match string_to_ros_msg_type(ty.as_str()) {
                    Ok(rt) => {
                        map.set(name.clone(), VariableMappingData { topic: t, msg_type: rt });
                    },
                    Err(e) => {
                        return Err(e);
                    },
                }
            },
            (JsonField::Missing, _) => {
                return Err(RosMappingError::MissingField(name.clone()));
            },
            (_, JsonField::Missing) => {
                return Err(RosMappingError::MissingField(name.clone()));
            },
            _ => {
                return Err(RosMappingError::FieldsNotStrings(name.clone()));
            },
        }
        k = k + 1;
    }
    Ok(map)
}

/// Reads the mapping of variables to ROS topics from a JSON5 object whose
/// members give each variable's `topic` and `msg_type`: a parse error, an
/// error for a document that is not an object, or what
/// `mapping_from_members` makes of the object's members.
pub fn json_to_mapping(json: &str) -> (r: Result<ROSStreamMapping, RosMappingError>)
    ensures
        r is Ok ==> exists|ms: Seq<(Seq<char>, Seq<(Seq<char>, FieldV)>)>|
            read_members(ms, ms.len() as int) == Ok::<_, (int, Seq<char>)>(r->Ok_0.view_entries()),
        r is Err ==> r->Err_0 is Parse || r->Err_0 is NotObject || exists|ms: Seq<
            (Seq<char>, Seq<(Seq<char>, FieldV)>),
        >| read_members(ms, ms.len() as int) == Err::<Seq<(Seq<char>, Seq<char>, ROSMsgType)>, _>(
            error_view(r->Err_0),
        ),
{
    match parse_mapping_document(json) {
        Err(e) => Err(RosMappingError::Parse(e)),
        Ok(None) => Err(RosMappingError::NotObject),
        Ok(Some(members)) => {
            let r = mapping_from_members(&members);
            proof {
                let mv = member_views(members@);
                assert(mv.len() == members@.len());
            }
            r
        },
    }
}

/// Once reading stops at an error, reading further members keeps that
/// error.
proof fn lemma_read_members_settled(ms: Seq<(Seq<char>, Seq<(Seq<char>, FieldV)>)>, k: int, n: int)
    requires
        0 <= k <= n,
    ensures
        read_members(ms, k) is Err ==> read_members(ms, n) == read_members(ms, k),
    decreases n - k,
{
    if k < n {
        lemma_read_members_settled(ms, k, n - 1);
    }
}

impl RosMappingError {
    /// The error as a message.
    pub fn message(&self) -> (r: String)
        ensures
            r@ == match self {
                RosMappingError::Parse(s) => s@,
                RosMappingError::NotObject => "Must be specified as a JSON object"@,
                RosMappingError::FieldsNotStrings(s) => "topic and msg_type must be strings for variable '"@
                    + s@ + "'"@,
                RosMappingError::MissingField(s) => "Missing topic or msg_type for variable '"@ + s@
                    + "'"@,
                RosMappingError::UnsupportedType(s) => "Unsupported type "@ + s@,
            },
    {
        match self {
            RosMappingError::Parse(s) => s.clone(),
            RosMappingError::NotObject => string_from_str("Must be specified as a JSON object"),
            RosMappingError::FieldsNotStrings(s) => {
                let a = string_concat(&string_from_str("topic and msg_type must be strings for variable '"), s);
                string_concat(&a, &string_from_str("'"))
            },
            RosMappingError::MissingField(s) => {
                let a = string_concat(&string_from_str("Missing topic or msg_type for variable '"), s);
                string_concat(&a, &string_from_str("'"))
            },
            RosMappingError::UnsupportedType(s) => string_concat(&string_from_str("Unsupported type "), s),
        }
    }
}

} // verus!
