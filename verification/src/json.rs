//! JSON documents, as far as the logic reads and writes them.
use crate::encoding::utf8_text;
use crate::error;
use crate::error::{ErrorKind, TransferError};
use crate::text::same_text;
use vstd::prelude::*;
use vstd::utf8::*;

verus! {

// ---------------------------------------------------------------------------------------------
// Documents that are read

/// A member of an object: its text, its truth value, its number where that is a count, or only its
/// kind.
pub enum JsonField {
    Null,
    Bool(bool),
    /// A number, with its value where that is an integer of at most 64 bits that is not negative.
    Number(Option<u64>),
    Text(String),
    Array,
    Object,
}

/// The model of a member.
pub enum JsonFieldModel {
    Null,
    Bool(bool),
    Number(Option<nat>),
    Text(Seq<char>),
    Array,
    Object,
}

impl View for JsonField {
    type V = JsonFieldModel;

    open spec fn view(&self) -> JsonFieldModel {
        match self {
            JsonField::Null => JsonFieldModel::Null,
            JsonField::Bool(value) => JsonFieldModel::Bool(*value),
            JsonField::Number(Some(count)) => JsonFieldModel::Number(Some(*count as nat)),
            JsonField::Number(None) => JsonFieldModel::Number(None),
            JsonField::Text(text) => JsonFieldModel::Text(text@),
            JsonField::Array => JsonFieldModel::Array,
            JsonField::Object => JsonFieldModel::Object,
        }
    }
}

/// A member with its name.
pub struct JsonMember {
    pub name: String,
    pub value: JsonField,
}

/// An object: for each name the member that was given last.
pub struct JsonObject {
    members: Vec<JsonMember>,
}

/// The map that a list of members gives when later ones replace earlier ones of the same name.
pub open spec fn member_map(members: Seq<JsonMember>) -> Map<Seq<char>, JsonFieldModel>
    decreases members.len(),
{
    if members.len() == 0 {
        Map::empty()
    } else {
        member_map(members.drop_last()).insert(members.last().name@, members.last().value@)
    }
}

impl View for JsonObject {
    type V = Map<Seq<char>, JsonFieldModel>;

    closed spec fn view(&self) -> Map<Seq<char>, JsonFieldModel> {
        member_map(self.members@)
    }
}

/// The member of a name.
pub open spec fn member(object: Map<Seq<char>, JsonFieldModel>, name: Seq<char>) -> Option<
    JsonFieldModel,
> {
    if object.dom().contains(name) {
        Some(object[name])
    } else {
        None
    }
}

/// The text of a name: there is one only where the member is a text.
pub open spec fn member_text(object: Map<Seq<char>, JsonFieldModel>, name: Seq<char>) -> Option<
    Seq<char>,
> {
    match member(object, name) {
        Some(JsonFieldModel::Text(text)) => Some(text),
        _ => None,
    }
}

/// The count of a name: there is one only where the member is a number that is a count.
pub open spec fn member_count(object: Map<Seq<char>, JsonFieldModel>, name: Seq<char>) -> Option<
    nat,
> {
    match member(object, name) {
        Some(JsonFieldModel::Number(count)) => count,
        _ => None,
    }
}

/// The text that one of two names gives: the second counts only where the first is absent.
pub open spec fn either_text(
    object: Map<Seq<char>, JsonFieldModel>,
    first: Seq<char>,
    second: Seq<char>,
) -> Option<Seq<char>> {
    if member(object, first) is Some {
        member_text(object, first)
    } else {
        member_text(object, second)
    }
}

impl JsonObject {
    pub fn new() -> (r: Self)
        ensures
            r@ == Map::<Seq<char>, JsonFieldModel>::empty(),
    {
        JsonObject { members: Vec::new() }
    }

    /// Sets the member of a name.
    pub fn insert(&mut self, name: &str, value: JsonField)
        ensures
            final(self)@ == old(self)@.insert(name@, value@),
    {
        let ghost before = self.members@;
        self.members.push(JsonMember { name: name.to_owned(), value });
        assert(self.members@.drop_last() =~= before);
    }

    /// The member of a name.
    pub fn get(&self, name: &str) -> (r: Option<&JsonField>)
        ensures
            match r {
                Some(value) => member(self@, name@) == Some(value@),
                None => member(self@, name@) is None,
            },
    {
        let ghost all = self.members@;
        let mut n: usize = self.members.len();
        assert(all.take(n as int) =~= all);
        while n > 0
            invariant
                n <= self.members@.len(),
                all == self.members@,
                member(member_map(all), name@) == member(member_map(all.take(n as int)), name@),
            decreases n,
        {
            assert(all.take(n as int).drop_last() =~= all.take(n - 1));
            if same_text(self.members[n - 1].name.as_str(), name) {
                return Some(&self.members[n - 1].value);
            }
            n -= 1;
        }
        None
    }

    /// The text of a name.
    pub fn text(&self, name: &str) -> (r: Option<&str>)
        ensures
            crate::paths::text_option(r) == member_text(self@, name@),
    {
        match self.get(name) {
            Some(JsonField::Text(text)) => Some(text.as_str()),
            _ => None,
        }
    }

    /// The count of a name.
    pub fn count(&self, name: &str) -> (r: Option<u64>)
        ensures
            match r {
                Some(count) => member_count(self@, name@) == Some(count as nat),
                None => member_count(self@, name@) is None,
            },
    {
        match self.get(name) {
            Some(JsonField::Number(count)) => *count,
            _ => None,
        }
    }

    /// The text that one of two names gives.
    pub fn either_text(&self, first: &str, second: &str) -> (r: Option<&str>)
        ensures
            crate::paths::text_option(r) == either_text(self@, first@, second@),
    {
        if self.get(first).is_some() {
            self.text(first)
        } else {
            self.text(second)
        }
    }
}

/// A document: an object, or anything else.
pub enum JsonDocument {
    Object(JsonObject),
    Other,
}

/// The model of a document.
pub enum JsonModel {
    Object(Map<Seq<char>, JsonFieldModel>),
    Other,
}

impl View for JsonDocument {
    type V = JsonModel;

    open spec fn view(&self) -> JsonModel {
        match self {
            JsonDocument::Object(object) => JsonModel::Object(object@),
            JsonDocument::Other => JsonModel::Other,
        }
    }
}

#[verifier::external_type_specification]
#[verifier::external_body]
pub struct ExJsonError(serde_json::Error);

/// The document that the bytes of a JSON text stand for; where they are no JSON text, why, in the
/// words of `serde_json`.
pub uninterp spec fn json_read(bytes: Seq<u8>) -> Result<JsonModel, Seq<char>>;

/// `serde_json::from_slice` into a `serde_json::Value`: what it reads, and the words of its error,
/// are named `json_read`. Of the members that are not texts, truth values or counts only the kind is
/// kept.
#[verifier::external_body]
pub(crate) fn json_parse(bytes: &[u8]) -> (r: Result<JsonDocument, String>)
    ensures
        match r {
            Ok(document) => json_read(bytes@) == Ok::<JsonModel, Seq<char>>(document@),
            Err(words) => json_read(bytes@) == Err::<JsonModel, Seq<char>>(words@),
        },
{
    serde_json::from_slice::<serde_json::Value>(bytes).map(|value| match value {
        serde_json::Value::Object(members) => JsonDocument::Object(JsonObject {
            members: members.into_iter().map(|(name, value)| JsonMember { name, value: match value {
                serde_json::Value::Null => JsonField::Null,
                serde_json::Value::Bool(value) => JsonField::Bool(value),
                serde_json::Value::Number(number) => JsonField::Number(number.as_u64()),
                serde_json::Value::String(text) => JsonField::Text(text),
                serde_json::Value::Array(_) => JsonField::Array,
                serde_json::Value::Object(_) => JsonField::Object,
            } }).collect(),
        }),
        _ => JsonDocument::Other,
    }).map_err(|error| error.to_string())
}

/// The object that the body of a reply holds; `None` where it holds none.
pub open spec fn reply_object(body: Seq<u8>) -> Option<Map<Seq<char>, JsonFieldModel>> {
    match json_read(body) {
        Ok(JsonModel::Object(object)) => Some(object),
        _ => None,
    }
}

/// Reads the body of a reply.
pub fn parse_reply(body: &[u8]) -> (r: Option<JsonObject>)
    ensures
        match r {
            Some(object) => reply_object(body@) == Some(object@),
            None => reply_object(body@) is None,
        },
{
    match json_parse(body) {
        Ok(JsonDocument::Object(object)) => Some(object),
        _ => None,
    }
}

/// A JSON text in its compact form.
pub uninterp spec fn json_compacted(bytes: Seq<u8>) -> Seq<char>;

/// `serde_json::to_string` of the `serde_json::Value` that `serde_json::from_slice` reads: what is
/// written is named `json_compacted`. What was read can always be written, so that it fails as the
/// reading does.
#[verifier::external_body]
fn json_compact(bytes: &[u8]) -> (r: Result<String, String>)
    ensures
        match r {
            Ok(text) => json_read(bytes@) is Ok && text@ == json_compacted(bytes@),
            Err(words) => json_read(bytes@) == Err::<JsonModel, Seq<char>>(words@),
        },
{
    serde_json::from_slice::<serde_json::Value>(bytes)
        .and_then(|value| serde_json::to_string(&value))
        .map_err(|error| error.to_string())
}

/// The body of a reply in its compact form, as it is printed; `None` where it is no JSON text.
pub fn compact_reply(body: &[u8]) -> (r: Option<String>)
    ensures
        match r {
            Some(printed) => json_read(body@) is Ok && printed@ == json_compacted(body@),
            None => json_read(body@) is Err,
        },
{
    match json_compact(body) {
        Ok(text) => Some(text),
        Err(_) => None,
    }
}

// ---------------------------------------------------------------------------------------------
// Objects that are written

/// The value of a member that is written.
pub enum ReplyField {
    Text(String),
    Count(u64),
    Flag(bool),
    Texts(Vec<String>),
}

/// The model of a value that is written.
pub enum ReplyFieldModel {
    Text(Seq<char>),
    Count(nat),
    Flag(bool),
    Texts(Seq<Seq<char>>),
}

impl View for ReplyField {
    type V = ReplyFieldModel;

    open spec fn view(&self) -> ReplyFieldModel {
        match self {
            ReplyField::Text(text) => ReplyFieldModel::Text(text@),
            ReplyField::Count(count) => ReplyFieldModel::Count(*count as nat),
            ReplyField::Flag(flag) => ReplyFieldModel::Flag(*flag),
            ReplyField::Texts(texts) => ReplyFieldModel::Texts(
                texts@.map_values(|text: String| text@),
            ),
        }
    }
}

impl ReplyFieldModel {
    /// How the value is read back.
    pub open spec fn read_back(self) -> JsonFieldModel {
        match self {
            ReplyFieldModel::Text(text) => JsonFieldModel::Text(text),
            ReplyFieldModel::Count(count) => JsonFieldModel::Number(Some(count)),
            ReplyFieldModel::Flag(flag) => JsonFieldModel::Bool(flag),
            ReplyFieldModel::Texts(_) => JsonFieldModel::Array,
        }
    }
}

/// A member that is written.
pub struct ReplyMember {
    pub name: String,
    pub value: ReplyField,
}

impl View for ReplyMember {
    type V = (Seq<char>, ReplyFieldModel);

    open spec fn view(&self) -> (Seq<char>, ReplyFieldModel) {
        (self.name@, self.value@)
    }
}

/// The model of a list of members.
pub open spec fn members_of(members: Seq<ReplyMember>) -> Seq<(Seq<char>, ReplyFieldModel)> {
    members.map_values(|member: ReplyMember| member@)
}

/// The object that written members are read back as: the last member of a name counts.
pub open spec fn read_back(members: Seq<(Seq<char>, ReplyFieldModel)>) -> Map<
    Seq<char>,
    JsonFieldModel,
>
    decreases members.len(),
{
    if members.len() == 0 {
        Map::empty()
    } else {
        read_back(members.drop_last()).insert(members.last().0, members.last().1.read_back())
    }
}

/// A written member is read back under its name.
pub proof fn lemma_read_back(members: Seq<(Seq<char>, ReplyFieldModel)>, at: int)
    requires
        0 <= at < members.len(),
        forall|j: int| at < j < members.len() ==> (#[trigger] members[j]).0 != members[at].0,
    ensures
        member(read_back(members), members[at].0) == Some(members[at].1.read_back()),
    decreases members.len(),
{
    if at < members.len() - 1 {
        assert(members[members.len() - 1].0 != members[at].0);
        lemma_read_back(members.drop_last(), at);
    }
}

/// The bytes of the JSON text of an object with the given members.
pub uninterp spec fn json_write(members: Seq<(Seq<char>, ReplyFieldModel)>) -> Seq<u8>;

/// `serde_json::to_vec` of the `serde_json::Value` that holds an object with the given members:
/// what it writes is named `json_write`, is UTF-8 and is read back as the same object. Writing such a
/// value into memory never fails: its keys are texts and its numbers are integers.
#[verifier::external_body]
fn json_bytes(members: &Vec<ReplyMember>) -> (r: Result<Vec<u8>, serde_json::Error>)
    ensures
        r is Ok,
        r matches Ok(bytes) ==> bytes@ == json_write(members_of(members@)) && valid_utf8(bytes@),
        r matches Ok(bytes) ==> (json_read(bytes@) matches Ok(document) && document
            == JsonModel::Object(read_back(members_of(members@)))),
{
    serde_json::to_vec(&serde_json::Value::Object(
        members.iter().map(|member| (member.name.clone(), match &member.value {
            ReplyField::Text(text) => serde_json::Value::from(text.as_str()),
            ReplyField::Count(count) => serde_json::Value::from(*count),
            ReplyField::Flag(flag) => serde_json::Value::from(*flag),
            ReplyField::Texts(texts) => serde_json::Value::from(texts.clone()),
        })).collect(),
    ))
}

/// Writes an object. What is written is UTF-8, and is read back as the same object.
pub fn write_object(members: &Vec<ReplyMember>) -> (r: Vec<u8>)
    ensures
        r@ == json_write(members_of(members@)),
        valid_utf8(r@),
        json_read(r@) == Ok::<_, Seq<char>>(JsonModel::Object(read_back(members_of(members@)))),
{
    json_bytes(members).unwrap()
}

pub fn text_member(name: &str, text: &str) -> (r: ReplyMember)
    ensures
        r@ == (name@, ReplyFieldModel::Text(text@)),
{
    ReplyMember { name: name.to_owned(), value: ReplyField::Text(text.to_owned()) }
}

pub fn count_member(name: &str, count: u64) -> (r: ReplyMember)
    ensures
        r@ == (name@, ReplyFieldModel::Count(count as nat)),
{
    ReplyMember { name: name.to_owned(), value: ReplyField::Count(count) }
}

pub fn flag_member(name: &str, flag: bool) -> (r: ReplyMember)
    ensures
        r@ == (name@, ReplyFieldModel::Flag(flag)),
{
    ReplyMember { name: name.to_owned(), value: ReplyField::Flag(flag) }
}

// ---------------------------------------------------------------------------------------------
// The context of a plugin action

/// The context that a JSON document gives: it must be an object, in which a clicked link replaces
/// the member `clicked_url`.
pub open spec fn context_of(document: JsonModel, clicked: Option<Seq<char>>) -> Result<
    Map<Seq<char>, JsonFieldModel>,
    error::Fault,
> {
    match document {
        JsonModel::Other => Err(error::fault(ErrorKind::ContextNotObject)),
        JsonModel::Object(object) => match clicked {
            Some(url) => Ok(object.insert("clicked_url"@, JsonFieldModel::Text(url))),
            None => Ok(object),
        },
    }
}

/// The context that a parsed document gives.
pub fn context_from_document(document: JsonDocument, clicked: Option<&str>) -> (r: Result<
    JsonObject,
    TransferError,
>)
    ensures
        match r {
            Ok(context) => context_of(document@, crate::paths::text_option(clicked)) == Ok::<
                _,
                error::Fault,
            >(context@),
            Err(error) => context_of(document@, crate::paths::text_option(clicked)) == Err::<
                Map<Seq<char>, JsonFieldModel>,
                error::Fault,
            >(error@),
        },
{
    match document {
        JsonDocument::Other => Err(TransferError::new(ErrorKind::ContextNotObject)),
        JsonDocument::Object(object) => {
            let mut context = object;
            match clicked {
                Some(url) => {
                    context.insert("clicked_url", JsonField::Text(url.to_owned()));
                },
                None => {},
            }
            Ok(context)
        },
    }
}

/// The JSON text of a context that was not given.
pub const EMPTY_CONTEXT: &'static str = "{}";

/// The JSON text of a context: an absent one is an empty object.
pub open spec fn context_text(raw: Option<Seq<char>>) -> Seq<char> {
    match raw {
        Some(text) => text,
        None => EMPTY_CONTEXT@,
    }
}

/// Reads the context of a plugin action from its JSON text and the clicked link.
pub fn context_from_environment(raw: Option<&str>, clicked: Option<&str>) -> (r: Result<
    JsonObject,
    TransferError,
>)
    ensures
        match json_read(
            encode_utf8(context_text(crate::paths::text_option(raw))),
        ) {
            Ok(document) => match r {
                Ok(context) => context_of(document, crate::paths::text_option(clicked)) == Ok::<
                    _,
                    error::Fault,
                >(context@),
                Err(error) => context_of(document, crate::paths::text_option(clicked)) == Err::<
                    Map<Seq<char>, JsonFieldModel>,
                    error::Fault,
                >(error@),
            },
            Err(words) => r matches Err(error) && error@ == error::fault_about(
                ErrorKind::InvalidContext,
                words,
            ),
        },
{
    let text = match raw {
        Some(text) => text,
        None => EMPTY_CONTEXT,
    };
    match json_parse(text.as_bytes()) {
        Ok(document) => context_from_document(document, clicked),
        Err(words) => Err(TransferError::about(ErrorKind::InvalidContext, words)),
    }
}

/// The pane that a document tells of: its name and its directory.
pub open spec fn pane_of(document: JsonModel) -> Result<(Seq<char>, Seq<char>), error::Fault> {
    let object = match document {
        JsonModel::Object(object) => object,
        JsonModel::Other => Map::empty(),
    };
    match member_text(object, "focused_pane_id"@) {
        None => Err(error::fault(ErrorKind::MissingPaneId)),
        Some(id) => match either_text(object, "focused_pane_cwd"@, "workspace_cwd"@) {
            None => Err(error::fault(ErrorKind::MissingPaneDirectory)),
            Some(directory) => Ok((id, directory)),
        },
    }
}

/// The model of a result that holds two texts.
pub open spec fn pair_result(r: Result<(String, String), TransferError>) -> Result<
    (Seq<char>, Seq<char>),
    error::Fault,
> {
    match r {
        Ok((a, b)) => Ok((a@, b@)),
        Err(error) => Err(error@),
    }
}

/// The pane that a parsed document tells of.
pub fn pane_from_document(document: JsonDocument) -> (r: Result<(String, String), TransferError>)
    ensures
        pair_result(r) == pane_of(document@),
{
    let object = match document {
        JsonDocument::Object(object) => object,
        JsonDocument::Other => JsonObject::new(),
    };
    match object.text("focused_pane_id") {
        None => Err(TransferError::new(ErrorKind::MissingPaneId)),
        Some(id) => match object.either_text("focused_pane_cwd", "workspace_cwd") {
            None => Err(TransferError::new(ErrorKind::MissingPaneDirectory)),
            Some(directory) => Ok((id.to_owned(), directory.to_owned())),
        },
    }
}

/// Reads the focused pane's name and directory from the JSON text of a context.
pub fn focused_pane_context(raw: &str) -> (r: Result<(String, String), TransferError>)
    ensures
        match json_read(encode_utf8(raw@)) {
            Ok(document) => pair_result(r) == pane_of(document),
            Err(words) => r matches Err(error) && error@ == error::fault_about(
                ErrorKind::InvalidContext,
                words,
            ),
        },
{
    match json_parse(raw.as_bytes()) {
        Ok(document) => pane_from_document(document),
        Err(words) => Err(TransferError::about(ErrorKind::InvalidContext, words)),
    }
}

/// The members of a context that selects a path in a directory.
pub open spec fn selection_members(selected: Seq<char>, directory: Seq<char>) -> Seq<
    (Seq<char>, ReplyFieldModel),
> {
    seq![
        ("selected_text"@, ReplyFieldModel::Text(selected)),
        ("focused_pane_cwd"@, ReplyFieldModel::Text(directory)),
    ]
}

/// Writes the context that selects a path in a directory. Whoever reads it finds both again.
pub fn selection_context(selected: &str, directory: &str) -> (r: String)
    ensures
        encode_utf8(r@) == json_write(selection_members(selected@, directory@)),
        json_read(encode_utf8(r@)) == Ok::<_, Seq<char>>(
            JsonModel::Object(read_back(selection_members(selected@, directory@))),
        ),
{
    let mut members: Vec<ReplyMember> = Vec::new();
    members.push(text_member("selected_text", selected));
    members.push(text_member("focused_pane_cwd", directory));
    assert(members_of(members@) =~= selection_members(selected@, directory@));
    let bytes = write_object(&members);
    proof {
        decode_utf8_encode_utf8(bytes@);
    }
    utf8_text(bytes).unwrap()
}

/// A context that was written for a selection selects the path, in the directory.
pub proof fn law_written_selection_is_read_back(selected: Seq<char>, directory: Seq<char>)
    ensures
        ({
            let object = read_back(selection_members(selected, directory));
            &&& context_of(JsonModel::Object(object), None) == Ok::<_, error::Fault>(object)
            &&& either_text(object, "clicked_url"@, "selected_text"@) == Some(selected)
            &&& either_text(object, "focused_pane_cwd"@, "workspace_cwd"@) == Some(directory)
        }),
{
    let members = selection_members(selected, directory);
    reveal_strlit("selected_text");
    reveal_strlit("focused_pane_cwd");
    reveal_strlit("clicked_url");
    assert("selected_text"@.len() == 13 && "focused_pane_cwd"@.len() == 16 && "clicked_url"@.len()
        == 11);
    lemma_read_back(members, 0);
    lemma_read_back(members, 1);
    reveal_with_fuel(read_back, 3);
    assert(members.drop_last().drop_last() =~= seq![]);
}

/// A name that an object holds gives its member, and any other name gives none; only a text is given
/// as a text, and only a count as a count. Of two names the second matters only where the object
/// does not hold the first.
pub proof fn law_members_are_found_by_name(
    object: Map<Seq<char>, JsonFieldModel>,
    name: Seq<char>,
    other: Seq<char>,
    field: JsonFieldModel,
    text: Seq<char>,
    count: nat,
)
    ensures
        member(object.insert(name, field), name) == Some(field),
        member(object.remove(name), name) is None,
        name != other ==> member(object.insert(name, field), other) == member(object, other),
        member_text(object.insert(name, JsonFieldModel::Text(text)), name) == Some(text),
        !(field is Text) ==> member_text(object.insert(name, field), name) is None,
        member_text(object.remove(name), name) is None,
        member_count(object.insert(name, JsonFieldModel::Number(Some(count))), name) == Some(count),
        !(field is Number) ==> member_count(object.insert(name, field), name) is None,
        either_text(object.insert(name, JsonFieldModel::Text(text)), name, other) == Some(text),
        !(field is Text) ==> either_text(object.insert(name, field), name, other) is None,
        name != other ==> either_text(
            object.remove(name).insert(other, JsonFieldModel::Text(text)),
            name,
            other,
        ) == Some(text),
        either_text(object.remove(name).remove(other), name, other) is None,
{
}

/// A context is the object that was given, with the clicked link in it where there is one; anything
/// but an object is refused.
pub proof fn law_clicked_link_joins_the_context(
    object: Map<Seq<char>, JsonFieldModel>,
    url: Seq<char>,
    name: Seq<char>,
)
    ensures
        context_of(JsonModel::Object(object), None) == Ok::<_, error::Fault>(object),
        context_of(JsonModel::Object(object), Some(url)) matches Ok(context) && member_text(
            context,
            "clicked_url"@,
        ) == Some(url) && (name != "clicked_url"@ ==> member(context, name) == member(object, name)),
        context_of(JsonModel::Other, None) == Err::<Map<Seq<char>, JsonFieldModel>, error::Fault>(
            error::fault(ErrorKind::ContextNotObject),
        ),
        context_of(JsonModel::Other, Some(url)) is Err,
        context_text(None) == "{}"@,
        context_text(Some(url)) == url,
{
}

/// The focused pane is told by its name and its directory, or else by the directory of the
/// workspace; without the one or the other it is not told.
pub proof fn law_focused_pane_is_told(
    object: Map<Seq<char>, JsonFieldModel>,
    id: Seq<char>,
    directory: Seq<char>,
)
    requires
        member_text(object, "focused_pane_id"@) == Some(id),
    ensures
        member_text(object, "focused_pane_cwd"@) == Some(directory) ==> pane_of(
            JsonModel::Object(object),
        ) == Ok::<_, error::Fault>((id, directory)),
        member(object, "focused_pane_cwd"@) is None && member_text(object, "workspace_cwd"@)
            == Some(directory) ==> pane_of(JsonModel::Object(object)) == Ok::<_, error::Fault>(
            (id, directory),
        ),
        member(object, "focused_pane_cwd"@) is None && member(object, "workspace_cwd"@) is None
            ==> pane_of(JsonModel::Object(object)) == Err::<(Seq<char>, Seq<char>), error::Fault>(
            error::fault(ErrorKind::MissingPaneDirectory),
        ),
        pane_of(JsonModel::Object(object.remove("focused_pane_id"@))) == Err::<
            (Seq<char>, Seq<char>),
            error::Fault,
        >(error::fault(ErrorKind::MissingPaneId)),
        pane_of(JsonModel::Other) == Err::<(Seq<char>, Seq<char>), error::Fault>(
            error::fault(ErrorKind::MissingPaneId),
        ),
{
}

/// A name that was not written is not read back.
pub proof fn law_nothing_is_read_back_that_was_not_written(
    members: Seq<(Seq<char>, ReplyFieldModel)>,
    name: Seq<char>,
)
    requires
        forall|i: int| 0 <= i < members.len() ==> (#[trigger] members[i]).0 != name,
    ensures
        member(read_back(members), name) is None,
    decreases members.len(),
{
    if members.len() > 0 {
        let front = members.drop_last();
        assert forall|i: int| 0 <= i < front.len() implies (#[trigger] front[i]).0 != name by {
            assert(front[i] == members[i]);
        }
        law_nothing_is_read_back_that_was_not_written(front, name);
        assert(members[members.len() - 1].0 != name);
    }
}

/// What is written is read back for what it is: texts, counts and truth values with their value.
pub proof fn law_written_values_keep_their_value(text: Seq<char>, count: nat, flag: bool)
    ensures
        ReplyFieldModel::Text(text).read_back() == JsonFieldModel::Text(text),
        ReplyFieldModel::Count(count).read_back() == JsonFieldModel::Number(Some(count)),
        ReplyFieldModel::Flag(flag).read_back() == JsonFieldModel::Bool(flag),
{
}

/// A reply is understood exactly where it is an object.
pub proof fn law_replies_are_objects(body: Seq<u8>, object: Map<Seq<char>, JsonFieldModel>)
    ensures
        json_read(body) == Ok::<JsonModel, Seq<char>>(JsonModel::Object(object)) ==> reply_object(body)
            == Some(object),
        json_read(body) is Err ==> reply_object(body) is None,
        json_read(body) == Ok::<JsonModel, Seq<char>>(JsonModel::Other) ==> reply_object(body)
            is None,
{
}

} // verus!
