//! The document `skills list --json` prints and an installer reads.
//!
//! One type, both ends. Every field defaults when it is missing: the installer
//! runs a binary it merely found on disk, which may be older than the document
//! it is being asked to produce. Missing means absent, not malformed, so an
//! engine that answers with `{}` reports that it has no skills.

use vstd::prelude::*;

use crate::json;
use crate::json::{parse_json, to_compact, Fields, Json, JsonValue, Numeral};
use crate::skills;
use crate::skills::{MetaView, SkillMeta};
use crate::text;
use crate::text::{decimal_of, join};

verus! {

/// One skill as an engine describes it.
#[derive(Debug, PartialEq, Eq)]
pub struct Skill {
    pub name: String,
    pub description: String,
    pub files: usize,
    pub bytes: usize,
    /// Opaque to the installer: the only operation is equality against what is
    /// recorded on disk.
    pub fingerprint: String,
}

impl View for Skill {
    type V = MetaView;

    open spec fn view(&self) -> MetaView {
        MetaView {
            name: self.name@,
            description: self.description@,
            files: self.files,
            bytes: self.bytes,
            fingerprint: self.fingerprint@,
        }
    }
}

/// What a list of skills says.
pub open spec fn skills_said(list: Seq<Skill>) -> Seq<MetaView> {
    Seq::new(list.len(), |i: int| list[i]@)
}

/// `<engine> skills list --json`.
#[derive(Debug, PartialEq, Eq)]
pub struct Listing {
    pub ok: bool,
    /// The name the engine calls itself.
    pub server: String,
    pub version: String,
    pub skills: Vec<Skill>,
}

/// What a [`Listing`] says.
pub struct ListingView {
    pub ok: bool,
    pub server: Seq<char>,
    pub version: Seq<char>,
    pub skills: Seq<MetaView>,
}

impl View for Listing {
    type V = ListingView;

    open spec fn view(&self) -> ListingView {
        ListingView {
            ok: self.ok,
            server: self.server@,
            version: self.version@,
            skills: skills_said(self.skills@),
        }
    }
}

// ---------------------------------------------------------------------------
// Writing
// ---------------------------------------------------------------------------

/// The fields of a skill in the document.
pub open spec fn skill_fields(skill: MetaView) -> Seq<(Seq<char>, Json)> {
    let none = Seq::<(Seq<char>, Json)>::empty();
    let named = json::with_field(none, "name"@, Json::Text(skill.name));
    let described = json::with_field(named, "description"@, Json::Text(skill.description));
    let counted = json::with_field(described, "files"@, Json::Integer(skill.files as int));
    let sized = json::with_field(counted, "bytes"@, Json::Integer(skill.bytes as int));
    json::with_field(sized, "fingerprint"@, Json::Text(skill.fingerprint))
}

/// The skills of the document.
pub open spec fn skill_documents(skills: Seq<MetaView>) -> Seq<Json> {
    skills.map_values(|skill: MetaView| Json::Object(skill_fields(skill)))
}

/// The fields with one more where the text is not empty.
pub open spec fn with_text(
    fields: Seq<(Seq<char>, Json)>,
    key: Seq<char>,
    value: Seq<char>,
) -> Seq<(Seq<char>, Json)> {
    if value.len() == 0 {
        fields
    } else {
        json::with_field(fields, key, Json::Text(value))
    }
}

/// The document a listing is.
pub open spec fn listing_document(listing: ListingView) -> Json {
    let none = Seq::<(Seq<char>, Json)>::empty();
    let ok = json::with_field(none, "ok"@, Json::Bool(listing.ok));
    let server = with_text(ok, "server"@, listing.server);
    let version = with_text(server, "version"@, listing.version);
    Json::Object(
        json::with_field(version, "skills"@, Json::List(skill_documents(listing.skills))),
    )
}

/// A text as it stands in a document.
pub open spec fn text_in_json(s: Seq<char>) -> Seq<char> {
    json::compact_text(Json::Text(s))
}

/// A skill as it is printed.
pub open spec fn skill_text(skill: MetaView) -> Seq<char> {
    "{\"name\":"@ + text_in_json(skill.name) + ",\"description\":"@ + text_in_json(
        skill.description,
    ) + ",\"files\":"@ + text::decimal(skill.files as nat) + ",\"bytes\":"@ + text::decimal(
        skill.bytes as nat,
    ) + ",\"fingerprint\":"@ + text_in_json(skill.fingerprint) + "}"@
}

/// A field as it is printed where its text is not empty.
pub open spec fn text_field(lead: Seq<char>, value: Seq<char>) -> Seq<char> {
    if value.len() == 0 {
        Seq::empty()
    } else {
        lead + text_in_json(value)
    }
}

/// A listing as it is printed.
pub open spec fn listing_text(listing: ListingView) -> Seq<char> {
    (if listing.ok {
        "{\"ok\":true"@
    } else {
        "{\"ok\":false"@
    }) + text_field(",\"server\":"@, listing.server) + text_field(
        ",\"version\":"@,
        listing.version,
    ) + ",\"skills\":["@ + text::joined(
        listing.skills.map_values(|skill: MetaView| skill_text(skill)),
        ","@,
    ) + "]}"@
}

pub(crate) fn in_json(value: &str) -> (res: String)
    ensures
        res@ == text_in_json(value@),
{
    let doc = JsonValue::Text(value.to_owned());
    to_compact(&doc)
}

pub(crate) fn number(n: usize) -> (res: JsonValue)
    ensures
        res.json() == Json::Integer(n as int),
{
    JsonValue::Numeral(Numeral::from_u64(n as u64))
}

impl Skill {
    /// A skill as its own metadata describes it.
    pub fn of(meta: &SkillMeta) -> (res: Skill)
        ensures
            res@ == meta@,
    {
        Skill {
            name: meta.name.to_owned(),
            description: meta.description.to_owned(),
            files: meta.files,
            bytes: meta.bytes,
            fingerprint: meta.fingerprint.to_owned(),
        }
    }

    /// The skill as a document.
    pub fn to_value(&self) -> (res: JsonValue)
        ensures
            res.json() == Json::Object(skill_fields(self@)),
    {
        let mut map = Fields::new();
        map.insert("name".to_owned(), JsonValue::Text(self.name.as_str().to_owned()));
        map.insert(
            "description".to_owned(),
            JsonValue::Text(self.description.as_str().to_owned()),
        );
        map.insert("files".to_owned(), number(self.files));
        map.insert("bytes".to_owned(), number(self.bytes));
        map.insert(
            "fingerprint".to_owned(),
            JsonValue::Text(self.fingerprint.as_str().to_owned()),
        );
        JsonValue::Object(map)
    }

    fn to_text(&self) -> (res: String)
        ensures
            res@ == skill_text(self@),
    {
        let mut out = "{\"name\":".to_owned();
        out.append(in_json(self.name.as_str()).as_str());
        out.append(",\"description\":");
        out.append(in_json(self.description.as_str()).as_str());
        out.append(",\"files\":");
        out.append(decimal_of(self.files as u64).as_str());
        out.append(",\"bytes\":");
        out.append(decimal_of(self.bytes as u64).as_str());
        out.append(",\"fingerprint\":");
        out.append(in_json(self.fingerprint.as_str()).as_str());
        out.append("}");
        out
    }
}

impl Listing {
    pub fn new(server: &str, version: &str, skills: &[SkillMeta]) -> (res: Self)
        ensures
            res@ == (ListingView {
                ok: true,
                server: server@,
                version: version@,
                skills: skills::metas_said(skills@),
            }),
    {
        let mut list: Vec<Skill> = Vec::new();
        let mut i: usize = 0;
        while i < skills.len()
            invariant
                i <= skills@.len(),
                list@.len() == i,
                forall|j: int| 0 <= j < i ==> (#[trigger] list@[j])@ == skills@[j]@,
            decreases skills@.len() - i,
        {
            list.push(Skill::of(&skills[i]));
            i += 1;
        }
        assert(skills_said(list@) =~= skills::metas_said(skills@));
        Listing { ok: true, server: server.to_owned(), version: version.to_owned(), skills: list }
    }

    /// The listing as a document. The server and its version are left out where
    /// they are empty.
    pub fn to_value(&self) -> (res: JsonValue)
        ensures
            res.json() == listing_document(self@),
    {
        let mut map = Fields::new();
        map.insert("ok".to_owned(), JsonValue::Bool(self.ok));
        if !self.server.as_str().is_empty() {
            map.insert("server".to_owned(), JsonValue::Text(self.server.as_str().to_owned()));
        }
        if !self.version.as_str().is_empty() {
            map.insert("version".to_owned(), JsonValue::Text(self.version.as_str().to_owned()));
        }
        let mut list: Vec<JsonValue> = Vec::new();
        let mut i: usize = 0;
        while i < self.skills.len()
            invariant
                i <= self.skills.len(),
                list@.len() == i,
                forall|j: int|
                    0 <= j < i ==> (#[trigger] list@[j]).json() == Json::Object(
                        skill_fields(self.skills@[j]@),
                    ),
            decreases self.skills.len() - i,
        {
            list.push(self.skills[i].to_value());
            i += 1;
        }
        proof {
            JsonValue::list_json(list);
            assert(json::jsons(list@) =~= skill_documents(skills_said(self.skills@)));
        }
        map.insert("skills".to_owned(), JsonValue::List(list));
        JsonValue::Object(map)
    }

    /// The listing on one line, its fields in the order in which they are
    /// declared.
    pub fn to_text(&self) -> (res: String)
        ensures
            res@ == listing_text(self@),
    {
        let mut out = if self.ok {
            "{\"ok\":true".to_owned()
        } else {
            "{\"ok\":false".to_owned()
        };
        let ghost opened = out@;
        if !self.server.as_str().is_empty() {
            out.append(",\"server\":");
            out.append(in_json(self.server.as_str()).as_str());
        }
        assert(out@ =~= opened + text_field(",\"server\":"@, self.server@));
        let ghost served = out@;
        if !self.version.as_str().is_empty() {
            out.append(",\"version\":");
            out.append(in_json(self.version.as_str()).as_str());
        }
        assert(out@ =~= served + text_field(",\"version\":"@, self.version@));
        out.append(",\"skills\":[");
        let mut items: Vec<String> = Vec::new();
        let mut i: usize = 0;
        while i < self.skills.len()
            invariant
                i <= self.skills.len(),
                items@.len() == i,
                forall|j: int|
                    0 <= j < i ==> (#[trigger] items@[j])@ == skill_text(self.skills@[j]@),
            decreases self.skills.len() - i,
        {
            items.push(self.skills[i].to_text());
            i += 1;
        }
        assert(text::texts(items@) =~= skills_said(self.skills@).map_values(
            |skill: MetaView| skill_text(skill),
        ));
        out.append(join(items.as_slice(), ",").as_str());
        out.append("]}");
        out
    }
}

// ---------------------------------------------------------------------------
// Reading
// ---------------------------------------------------------------------------

/// What a document says of a field: an object by its name, a list by its place.
pub open spec fn entry(doc: Json, key: Seq<char>, place: int) -> Option<Json> {
    match doc {
        Json::Object(fields) => json::field(fields, key),
        Json::List(items) => if 0 <= place < items.len() {
            Some(items[place])
        } else {
            None
        },
        _ => None,
    }
}

/// Whether a document can be read field by field: an object, or a list that has the
/// first of the fields and no more than there are.
pub open spec fn is_record(doc: Json, fields: int) -> bool {
    match doc {
        Json::Object(_) => true,
        Json::List(items) => 1 <= items.len() <= fields,
        _ => false,
    }
}

/// A text: empty where it is missing, nothing where it is no text.
pub open spec fn text_of(value: Option<Json>) -> Option<Seq<char>> {
    match value {
        None => Some(Seq::empty()),
        Some(value) => value.text(),
    }
}

/// A count: zero where it is missing, nothing where it is no number that fits.
pub open spec fn count_of(value: Option<Json>) -> Option<usize> {
    match value {
        None => Some(0usize),
        Some(Json::Integer(n)) => if 0 <= n <= usize::MAX {
            Some(n as usize)
        } else {
            None
        },
        Some(_) => None,
    }
}

/// The skill that a document describes.
pub open spec fn skill_of_document(doc: Json) -> Option<MetaView> {
    match (
        text_of(entry(doc, "name"@, 0)),
        text_of(entry(doc, "description"@, 1)),
        count_of(entry(doc, "files"@, 2)),
        count_of(entry(doc, "bytes"@, 3)),
        text_of(entry(doc, "fingerprint"@, 4)),
    ) {
        (Some(name), Some(description), Some(files), Some(bytes), Some(fingerprint)) => {
            if is_record(doc, 5) {
                Some(MetaView { name, description, files, bytes, fingerprint })
            } else {
                None
            }
        },
        _ => None,
    }
}

/// The skills that some documents describe, if every one of them does.
pub open spec fn skills_of_documents(docs: Seq<Json>) -> Option<Seq<MetaView>>
    decreases docs.len(),
{
    if docs.len() == 0 {
        Some(Seq::empty())
    } else {
        match (skills_of_documents(docs.drop_last()), skill_of_document(docs.last())) {
            (Some(before), Some(skill)) => Some(before.push(skill)),
            _ => None,
        }
    }
}

/// The skills that are listed: none where it is not said.
pub open spec fn skills_of(value: Option<Json>) -> Option<Seq<MetaView>> {
    match value {
        None => Some(Seq::empty()),
        Some(Json::List(docs)) => skills_of_documents(docs),
        Some(_) => None,
    }
}

/// Whether all went well: not where it is not said.
pub open spec fn ok_of(value: Option<Json>) -> Option<bool> {
    match value {
        None => Some(false),
        Some(Json::Bool(b)) => Some(b),
        Some(_) => None,
    }
}

/// The listing that a document is.
pub open spec fn listing_of_document(doc: Json) -> Option<ListingView> {
    match (
        ok_of(entry(doc, "ok"@, 0)),
        text_of(entry(doc, "server"@, 1)),
        text_of(entry(doc, "version"@, 2)),
        skills_of(entry(doc, "skills"@, 3)),
    ) {
        (Some(ok), Some(server), Some(version), Some(skills)) => {
            if is_record(doc, 4) {
                Some(ListingView { ok, server, version, skills })
            } else {
                None
            }
        },
        _ => None,
    }
}

/// What an optional value is.
pub open spec fn opt_value(value: Option<&JsonValue>) -> Option<Json> {
    match value {
        Some(value) => Some(value.json()),
        None => None,
    }
}

fn read_entry<'a>(doc: &'a JsonValue, key: &str, place: usize) -> (res: Option<&'a JsonValue>)
    ensures
        opt_value(res) == entry(doc.json(), key@, place as int),
{
    if let Some(map) = doc.as_object() {
        return map.get(key);
    }
    match doc.as_array() {
        Some(list) => {
            assert(json::jsons(list@).len() == list@.len());
            if place < list.len() {
                assert(json::jsons(list@)[place as int] == list@[place as int].json());
                Some(&list[place])
            } else {
                None
            }
        },
        None => None,
    }
}

fn reads_as_record(doc: &JsonValue, fields: usize) -> (res: bool)
    ensures
        res == is_record(doc.json(), fields as int),
{
    match doc.as_array() {
        Some(list) => {
            assert(json::jsons(list@).len() == list@.len());
            1 <= list.len() && list.len() <= fields
        },
        None => doc.as_object().is_some(),
    }
}

fn read_text(value: Option<&JsonValue>) -> (res: Option<String>)
    ensures
        match res {
            Some(said) => text_of(opt_value(value)) == Some(said@),
            None => text_of(opt_value(value)) is None,
        },
{
    match value {
        None => Some(String::new()),
        Some(value) => match value.as_str() {
            Some(value) => Some(value.to_owned()),
            None => None,
        },
    }
}

fn read_count(value: Option<&JsonValue>) -> (res: Option<usize>)
    ensures
        res == count_of(opt_value(value)),
{
    match value {
        None => Some(0),
        Some(value) => match value.as_u64() {
            Some(n) => if n <= usize::MAX as u64 {
                Some(n as usize)
            } else {
                None
            },
            None => None,
        },
    }
}

impl Skill {
    /// The skill that a document describes.
    pub fn from_value(doc: &JsonValue) -> (res: Option<Skill>)
        ensures
            match res {
                Some(skill) => skill_of_document(doc.json()) == Some(skill@),
                None => skill_of_document(doc.json()) is None,
            },
    {
        if !reads_as_record(doc, 5) {
            return None;
        }
        match (
            read_text(read_entry(doc, "name", 0)),
            read_text(read_entry(doc, "description", 1)),
            read_count(read_entry(doc, "files", 2)),
            read_count(read_entry(doc, "bytes", 3)),
            read_text(read_entry(doc, "fingerprint", 4)),
        ) {
            (Some(name), Some(description), Some(files), Some(bytes), Some(fingerprint)) => Some(
                Skill { name, description, files, bytes, fingerprint },
            ),
            _ => None,
        }
    }
}

/// Where one skill of some cannot be read, they cannot.
proof fn one_bad_skill(docs: Seq<Json>, at: int)
    requires
        0 <= at < docs.len(),
        skill_of_document(docs[at]) is None,
    ensures
        skills_of_documents(docs) is None,
    decreases docs.len(),
{
    if at < docs.len() - 1 {
        one_bad_skill(docs.drop_last(), at);
    }
}

fn read_skills(listed: Option<&JsonValue>) -> (res: Option<Vec<Skill>>)
    ensures
        match res {
            Some(list) => skills_of(opt_value(listed)) == Some(skills_said(list@)),
            None => skills_of(opt_value(listed)) is None,
        },
{
    let mut list: Vec<Skill> = Vec::new();
    assert(skills_said(list@) =~= Seq::empty());
    let docs = match listed {
        None => {
            return Some(list);
        },
        Some(value) => match value.as_array() {
            Some(docs) => docs,
            None => {
                return None;
            },
        },
    };
    let ghost all = json::jsons(docs@);
    let mut i: usize = 0;
    while i < docs.len()
        invariant
            i <= docs.len(),
            all == json::jsons(docs@),
            opt_value(listed) == Some(Json::List(all)),
            skills_of_documents(all.take(i as int)) == Some(skills_said(list@)),
        decreases docs.len() - i,
    {
        let ghost before = list@;
        assert(all.take(i + 1).drop_last() =~= all.take(i as int));
        assert(all.take(i + 1).last() == docs@[i as int].json());
        match Skill::from_value(&docs[i]) {
            Some(skill) => {
                let ghost said = skill@;
                list.push(skill);
                assert(skills_said(list@) =~= skills_said(before).push(said));
            },
            None => {
                proof {
                    one_bad_skill(all, i as int);
                }
                return None;
            },
        }
        i += 1;
    }
    assert(all.take(all.len() as int) =~= all);
    Some(list)
}

impl Listing {
    /// The listing that a document is.
    pub fn from_value(doc: &JsonValue) -> (res: Option<Listing>)
        ensures
            match res {
                Some(listing) => listing_of_document(doc.json()) == Some(listing@),
                None => listing_of_document(doc.json()) is None,
            },
    {
        if !reads_as_record(doc, 4) {
            return None;
        }
        let ok = match read_entry(doc, "ok", 0) {
            None => false,
            Some(value) => match value.as_bool() {
                Some(ok) => ok,
                None => {
                    return None;
                },
            },
        };
        match (
            read_text(read_entry(doc, "server", 1)),
            read_text(read_entry(doc, "version", 2)),
            read_skills(read_entry(doc, "skills", 3)),
        ) {
            (Some(server), Some(version), Some(skills)) => Some(
                Listing { ok, server, version, skills },
            ),
            _ => None,
        }
    }

    /// The listing that a text spells out. A field that stands twice counts with its
    /// last value.
    pub fn from_text(source: &str) -> (res: Option<Listing>)
        ensures
            match (json::parsed(source@), res) {
                (Some(doc), Some(listing)) => listing_of_document(doc) == Some(listing@),
                (Some(doc), None) => listing_of_document(doc) is None,
                (None, res) => res is None,
            },
    {
        match parse_json(source) {
            Some(doc) => Listing::from_value(&doc),
            None => None,
        }
    }
}

// ---------------------------------------------------------------------------
// Laws
// ---------------------------------------------------------------------------

/// A skill that was written is read back as it was.
pub proof fn skill_round_trips(skill: MetaView)
    ensures
        skill_of_document(Json::Object(skill_fields(skill))) == Some(skill),
{
    reveal_strlit("name");
    reveal_strlit("description");
    reveal_strlit("files");
    reveal_strlit("bytes");
    reveal_strlit("fingerprint");
    assert("files"@[0] == 'f' && "bytes"@[0] == 'b');
    assert("files"@.len() == 5 && "fingerprint"@.len() == 11);
    assert("description"@[0] == 'd' && "fingerprint"@[0] == 'f');
    let none = Seq::<(Seq<char>, Json)>::empty();
    let named = json::with_field(none, "name"@, Json::Text(skill.name));
    let described = json::with_field(named, "description"@, Json::Text(skill.description));
    let counted = json::with_field(described, "files"@, Json::Integer(skill.files as int));
    let sized = json::with_field(counted, "bytes"@, Json::Integer(skill.bytes as int));
    let mark = Json::Text(skill.fingerprint);
    json::set_field(none, "name"@, Json::Text(skill.name), "name"@);
    json::set_field(named, "description"@, Json::Text(skill.description), "name"@);
    json::set_field(described, "files"@, Json::Integer(skill.files as int), "name"@);
    json::set_field(counted, "bytes"@, Json::Integer(skill.bytes as int), "name"@);
    json::set_field(sized, "fingerprint"@, mark, "name"@);
    json::set_field(described, "files"@, Json::Integer(skill.files as int), "description"@);
    json::set_field(counted, "bytes"@, Json::Integer(skill.bytes as int), "description"@);
    json::set_field(sized, "fingerprint"@, mark, "description"@);
    json::set_field(counted, "bytes"@, Json::Integer(skill.bytes as int), "files"@);
    json::set_field(sized, "fingerprint"@, mark, "files"@);
    json::set_field(sized, "fingerprint"@, mark, "bytes"@);
    let all = skill_fields(skill);
    assert(text_of(json::field(all, "name"@)) == Some(skill.name));
    assert(text_of(json::field(all, "description"@)) == Some(skill.description));
    assert(count_of(json::field(all, "files"@)) == Some(skill.files));
    assert(count_of(json::field(all, "bytes"@)) == Some(skill.bytes));
    assert(text_of(json::field(all, "fingerprint"@)) == Some(skill.fingerprint));
}

proof fn skills_round_trip(skills: Seq<MetaView>)
    ensures
        skills_of_documents(skill_documents(skills)) == Some(skills),
    decreases skills.len(),
{
    if skills.len() == 0 {
        assert(skills =~= Seq::empty());
    } else {
        skills_round_trip(skills.drop_last());
        skill_round_trips(skills.last());
        assert(skill_documents(skills).drop_last() =~= skill_documents(skills.drop_last()));
        assert(skills.drop_last().push(skills.last()) =~= skills);
    }
}

/// The document round-trips: what an engine lists is what an installer reads.
pub proof fn document_round_trips(listing: ListingView)
    ensures
        listing_of_document(listing_document(listing)) == Some(listing),
{
    reveal_strlit("ok");
    reveal_strlit("server");
    reveal_strlit("version");
    reveal_strlit("skills");
    assert("server"@[1] == 'e' && "skills"@[1] == 'k');
    let none = Seq::<(Seq<char>, Json)>::empty();
    let ok = json::with_field(none, "ok"@, Json::Bool(listing.ok));
    let server = with_text(ok, "server"@, listing.server);
    let version = with_text(server, "version"@, listing.version);
    let list = Json::List(skill_documents(listing.skills));
    json::not_found(none, "server"@);
    json::not_found(none, "version"@);
    json::set_field(none, "ok"@, Json::Bool(listing.ok), "server"@);
    json::set_field(none, "ok"@, Json::Bool(listing.ok), "version"@);
    json::set_field(ok, "server"@, Json::Text(listing.server), "ok"@);
    json::set_field(ok, "server"@, Json::Text(listing.server), "version"@);
    json::set_field(server, "version"@, Json::Text(listing.version), "ok"@);
    json::set_field(server, "version"@, Json::Text(listing.version), "server"@);
    json::set_field(version, "skills"@, list, "ok"@);
    json::set_field(version, "skills"@, list, "server"@);
    json::set_field(version, "skills"@, list, "version"@);
    assert(listing.server.len() == 0 ==> listing.server =~= Seq::empty());
    assert(listing.version.len() == 0 ==> listing.version =~= Seq::empty());
    skills_round_trip(listing.skills);
}

/// A sparse document still reads: an object that says nothing lists nothing.
pub proof fn silence_is_no_skills(fields: Seq<(Seq<char>, Json)>)
    requires
        !json::has_field(fields, "ok"@),
        !json::has_field(fields, "server"@),
        !json::has_field(fields, "version"@),
        !json::has_field(fields, "skills"@),
    ensures
        listing_of_document(Json::Object(fields)) == Some(
            (ListingView {
                ok: false,
                server: Seq::empty(),
                version: Seq::empty(),
                skills: Seq::empty(),
            }),
        ),
{
}

} // verus!
