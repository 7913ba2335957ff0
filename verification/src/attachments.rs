//! The attachments of one message: which parts count as attachments, under
//! which name each is kept, and what happens when two parts declare one name.

use crate::mail::{
    describe, header_views, param_views, parse_disposition, parse_message, parsed_disposition,
    parsed_message, Disposition, DispositionKind, DispositionView, Header, HeaderView, Message,
    Param, ParamView, PartView,
};
use vstd::prelude::*;

verus! {

/// A file taken out of a message: the name that the message proposes for it
/// and its bytes.
#[derive(Debug, PartialEq, Eq)]
pub struct Attachment {
    pub filename: String,
    pub content: Vec<u8>,
}

pub struct AttachmentView {
    pub filename: Seq<char>,
    pub content: Seq<u8>,
}

impl View for Attachment {
    type V = AttachmentView;

    open spec fn view(&self) -> AttachmentView {
        AttachmentView { filename: self.filename@, content: self.content@ }
    }
}

/// The views of a run of attachments.
pub open spec fn attachment_views(attachments: Seq<Attachment>) -> Seq<AttachmentView> {
    attachments.map_values(|attachment: Attachment| attachment@)
}

/// Why the attachments of a message could not be had.
#[derive(Debug, PartialEq, Eq)]
pub enum ExtractError {
    /// The bytes are not a message that the parser accepts.
    Malformed { reason: String },
    /// The part at this position is an attachment, and its body is not valid
    /// in the transfer encoding that it declares.
    Undecodable { part: usize },
}

pub enum ExtractFailure {
    Malformed,
    Undecodable { part: nat },
}

impl View for ExtractError {
    type V = ExtractFailure;

    open spec fn view(&self) -> ExtractFailure {
        match self {
            ExtractError::Malformed { .. } => ExtractFailure::Malformed,
            ExtractError::Undecodable { part } => ExtractFailure::Undecodable { part: *part as nat },
        }
    }
}

/// Whether no two of `entries` have the same name.
pub open spec fn distinct_names(entries: Seq<AttachmentView>) -> bool {
    forall|i: int, j: int|
        0 <= i < j < entries.len() ==> (#[trigger] entries[i]).filename != (
        #[trigger] entries[j]).filename
}

/// Whether one of `entries` has the name `filename`.
pub open spec fn holds(entries: Seq<AttachmentView>, filename: Seq<char>) -> bool {
    exists|i: int| 0 <= i < entries.len() && (#[trigger] entries[i]).filename == filename
}

/// The position of an entry named `filename`, where there is one.
pub open spec fn slot(entries: Seq<AttachmentView>, filename: Seq<char>) -> int {
    choose|i: int| 0 <= i < entries.len() && (#[trigger] entries[i]).filename == filename
}

/// The bytes kept under `filename`, if any.
pub open spec fn lookup(entries: Seq<AttachmentView>, filename: Seq<char>) -> Option<Seq<u8>> {
    if holds(entries, filename) {
        Some(entries[slot(entries, filename)].content)
    } else {
        None
    }
}

/// `entries` after `content` was put under `filename`: a new name is added
/// at the end, a name already there keeps its place and gets the new bytes.
pub open spec fn put(entries: Seq<AttachmentView>, filename: Seq<char>, content: Seq<u8>) -> Seq<
    AttachmentView,
> {
    let entry = AttachmentView { filename, content };
    if holds(entries, filename) {
        entries.update(slot(entries, filename), entry)
    } else {
        entries.push(entry)
    }
}

/// Putting an entry keeps the names distinct, and the set then answers as a
/// map does after an insertion: the name that was put gives the new bytes,
/// every other name what it gave before.
pub proof fn lemma_put_is_map_insert(
    entries: Seq<AttachmentView>,
    filename: Seq<char>,
    content: Seq<u8>,
    other: Seq<char>,
)
    requires
        distinct_names(entries),
    ensures
        distinct_names(put(entries, filename, content)),
        lookup(put(entries, filename, content), filename) == Some(content),
        other != filename ==> lookup(put(entries, filename, content), other) == lookup(
            entries,
            other,
        ),
{
    let after = put(entries, filename, content);
    let at = if holds(entries, filename) {
        slot(entries, filename)
    } else {
        entries.len() as int
    };
    assert(after.len() > at && after[at].filename == filename && after[at].content == content);
    assert(forall|i: int| 0 <= i < after.len() && i != at ==> after[i] == entries[i]);
    assert(forall|i: int| 0 <= i < entries.len() && i != at ==> after[i] == entries[i]);
    assert(distinct_names(after)) by {
        assert forall|i: int, j: int| 0 <= i < j < after.len() implies (#[trigger] after[i]).filename
            != (#[trigger] after[j]).filename by {
            if i != at && j != at {
                assert(entries[i].filename != entries[j].filename);
            } else if i == at {
                if j < entries.len() {
                    assert(entries[i].filename != entries[j].filename);
                }
            } else {
                if at < entries.len() {
                    assert(entries[i].filename != entries[j].filename);
                }
            }
        }
    }
    assert(holds(after, filename));
    let found = slot(after, filename);
    assert(found == at) by {
        if found < at {
            assert(after[found].filename != after[at].filename);
        } else if at < found {
            assert(after[at].filename != after[found].filename);
        }
    }
    if other != filename {
        if holds(entries, other) {
            let was = slot(entries, other);
            assert(after[was].filename == other);
            assert(holds(after, other));
            let now = slot(after, other);
            assert(now == was) by {
                if now < was {
                    assert(after[now].filename != after[was].filename);
                } else if was < now {
                    assert(after[was].filename != after[now].filename);
                }
            }
        } else {
            if holds(after, other) {
                let now = slot(after, other);
                assert(entries[now].filename == other);
            }
        }
    }
}

/// The attachments of one message, each under the name that the message
/// declares for it. No name occurs twice.
#[derive(Debug)]
pub struct AttachmentSet {
    entries: Vec<Attachment>,
}

impl View for AttachmentSet {
    type V = Seq<AttachmentView>;

    /// The entries in the order in which their names first came in.
    closed spec fn view(&self) -> Seq<AttachmentView> {
        attachment_views(self.entries@)
    }
}

impl AttachmentSet {
    #[verifier::type_invariant]
    spec fn well_formed(&self) -> bool {
        distinct_names(self@)
    }

    /// The empty set.
    pub fn new() -> (set: Self)
        ensures
            set@ == Seq::<AttachmentView>::empty(),
            distinct_names(set@),
    {
        let set = AttachmentSet { entries: Vec::new() };
        assert(set@ =~= Seq::<AttachmentView>::empty());
        set
    }

    /// The number of attachments.
    pub fn len(&self) -> (count: usize)
        ensures
            count == self@.len(),
            distinct_names(self@),
    {
        proof {
            use_type_invariant(self);
        }
        self.entries.len()
    }

    /// The bytes kept under `filename`, if any.
    pub fn get(&self, filename: &str) -> (content: Option<&Vec<u8>>)
        ensures
            distinct_names(self@),
            match content {
                Some(bytes) => lookup(self@, filename@) == Some(bytes@),
                None => lookup(self@, filename@).is_none(),
            },
    {
        proof {
            use_type_invariant(self);
        }
        let wanted = filename.to_owned();
        match position(&self.entries, &wanted) {
            Some(at) => Some(&self.entries[at].content),
            None => None,
        }
    }

    /// Puts `content` under `filename`. Bytes that were kept under that name
    /// before are replaced.
    pub fn insert(&mut self, filename: String, content: Vec<u8>)
        ensures
            final(self)@ == put(old(self)@, filename@, content@),
            distinct_names(old(self)@),
            distinct_names(final(self)@),
    {
        proof {
            use_type_invariant(&*self);
            lemma_put_is_map_insert(self@, filename@, content@, filename@);
        }
        let mut entries = Vec::new();
        std::mem::swap(&mut entries, &mut self.entries);
        let ghost before = attachment_views(entries@);
        match position(&entries, &filename) {
            Some(at) => {
                entries.set(at, Attachment { filename, content });
            },
            None => {
                entries.push(Attachment { filename, content });
            },
        }
        assert(attachment_views(entries@) =~= put(before, filename@, content@));
        self.entries = entries;
    }

    /// Hands the attachments out, in the order in which their names first
    /// came in.
    pub fn into_entries(self) -> (entries: Vec<Attachment>)
        ensures
            attachment_views(entries@) == self@,
            distinct_names(self@),
    {
        proof {
            use_type_invariant(&self);
        }
        self.entries
    }
}

/// Finds the entry named `filename`.
fn position(entries: &Vec<Attachment>, filename: &String) -> (found: Option<usize>)
    requires
        distinct_names(attachment_views(entries@)),
    ensures
        match found {
            Some(at) => holds(attachment_views(entries@), filename@) && at == slot(
                attachment_views(entries@),
                filename@,
            ) && at < entries.len(),
            None => !holds(attachment_views(entries@), filename@),
        },
{
    let ghost views = attachment_views(entries@);
    let mut i: usize = 0;
    while i < entries.len()
        invariant
            i <= entries.len(),
            views == attachment_views(entries@),
            distinct_names(views),
            forall|j: int| 0 <= j < i ==> (#[trigger] views[j]).filename != filename@,
        decreases entries.len() - i,
    {
        if entries[i].filename == *filename {
            proof {
                assert(views[i as int].filename == filename@);
                let chosen = slot(views, filename@);
                if chosen < i {
                    assert(views[chosen].filename != views[i as int].filename);
                } else if i < chosen {
                    assert(views[i as int].filename != views[chosen].filename);
                }
            }
            return Some(i);
        }
        i = i + 1;
    }
    None
}

/// The value of the first of `headers` whose name is exactly `key`.
pub open spec fn header_value(headers: Seq<HeaderView>, key: Seq<char>) -> Option<Seq<char>>
    decreases headers.len(),
{
    if headers.len() == 0 {
        None
    } else if headers[0].key == key {
        Some(headers[0].value)
    } else {
        header_value(headers.drop_first(), key)
    }
}

/// The value of the first of `params` whose name is exactly `name`.
pub open spec fn param_value(params: Seq<ParamView>, name: Seq<char>) -> Option<Seq<char>>
    decreases params.len(),
{
    if params.len() == 0 {
        None
    } else if params[0].name == name {
        Some(params[0].value)
    } else {
        param_value(params.drop_first(), name)
    }
}

/// The name under which a part with this disposition is saved: the value of
/// its `filename` parameter where the kind is `attachment`, and none where
/// the kind is another or the parameter is missing.
pub open spec fn filename_of(disposition: DispositionView) -> Option<Seq<char>> {
    if disposition.kind is Attachment {
        param_value(disposition.params, "filename"@)
    } else {
        None
    }
}

/// The name under which `part` is saved, if it is an attachment: the part
/// must carry a `Content-Disposition` header, and the first one decides.
pub open spec fn part_filename(part: PartView) -> Option<Seq<char>> {
    match header_value(part.headers, "Content-Disposition"@) {
        Some(value) => filename_of(parsed_disposition(value)),
        None => None,
    }
}

/// The attachments of a message with the first-level parts `parts`, taken
/// part by part: a part that is no attachment is passed over, an attachment
/// is put under its name in place of an earlier one of that name, and the
/// first attachment whose body cannot be decoded ends it all.
pub open spec fn collect(parts: Seq<PartView>) -> Result<Seq<AttachmentView>, ExtractFailure>
    decreases parts.len(),
{
    if parts.len() == 0 {
        Ok(Seq::empty())
    } else {
        match collect(parts.drop_last()) {
            Err(failure) => Err(failure),
            Ok(found) => match part_filename(parts.last()) {
                None => Ok(found),
                Some(filename) => match parts.last().body {
                    None => Err(ExtractFailure::Undecodable { part: (parts.len() - 1) as nat }),
                    Some(content) => Ok(put(found, filename, content)),
                },
            },
        }
    }
}

/// The attachments that the raw message `raw` holds.
pub open spec fn extraction(raw: Seq<u8>) -> Result<Seq<AttachmentView>, ExtractFailure> {
    match parsed_message(raw) {
        Some(message) => collect(message.parts),
        None => Err(ExtractFailure::Malformed),
    }
}

/// A failure among the first parts is the failure of the whole message.
pub proof fn lemma_collect_failure_stays(parts: Seq<PartView>, upto: int)
    requires
        0 <= upto <= parts.len(),
        collect(parts.take(upto)) is Err,
    ensures
        collect(parts) == collect(parts.take(upto)),
    decreases parts.len() - upto,
{
    if upto < parts.len() {
        assert(parts.take(upto + 1).drop_last() =~= parts.take(upto));
        lemma_collect_failure_stays(parts, upto + 1);
    } else {
        assert(parts.take(upto) =~= parts);
    }
}

/// The attachments that are collected never share a name.
pub proof fn lemma_collect_distinct(parts: Seq<PartView>)
    ensures
        collect(parts) matches Ok(found) ==> distinct_names(found),
    decreases parts.len(),
{
    if parts.len() > 0 {
        lemma_collect_distinct(parts.drop_last());
        if let Ok(found) = collect(parts.drop_last()) {
            if let Some(filename) = part_filename(parts.last()) {
                if let Some(content) = parts.last().body {
                    lemma_put_is_map_insert(found, filename, content, filename);
                }
            }
        }
    }
}

/// The bytes that the parts declare for `filename`: the body of the last
/// part that is an attachment of that name.
pub open spec fn declared(parts: Seq<PartView>, filename: Seq<char>) -> Option<Seq<u8>>
    decreases parts.len(),
{
    if parts.len() == 0 {
        None
    } else if part_filename(parts.last()) == Some(filename) {
        parts.last().body
    } else {
        declared(parts.drop_last(), filename)
    }
}

/// What is collected is a map from names to bytes: a name is in it exactly
/// when some part is an attachment of that name, and it gives the bytes of
/// the last such part. A part without a disposition, of another kind than
/// `attachment`, or without a `filename` adds nothing.
pub proof fn lemma_collect_keeps_last_declared(parts: Seq<PartView>, filename: Seq<char>)
    requires
        collect(parts) is Ok,
    ensures
        collect(parts) matches Ok(found) && lookup(found, filename) == declared(parts, filename),
    decreases parts.len(),
{
    if parts.len() > 0 {
        let front = parts.drop_last();
        lemma_collect_keeps_last_declared(front, filename);
        lemma_collect_distinct(front);
        if let Ok(found) = collect(front) {
            if let Some(name) = part_filename(parts.last()) {
                if let Some(content) = parts.last().body {
                    lemma_put_is_map_insert(found, name, content, filename);
                }
            }
        }
    }
}

/// Tells whether `text` is the string `literal`.
fn text_is(text: &String, literal: &str) -> (same: bool)
    ensures
        same == (text@ == literal@),
{
    let wanted = literal.to_owned();
    *text == wanted
}

/// Finds the value of the first header named exactly `key`.
pub fn find_header<'a>(headers: &'a Vec<Header>, key: &str) -> (value: Option<&'a String>)
    ensures
        match value {
            Some(text) => header_value(header_views(headers@), key@) == Some(text@),
            None => header_value(header_views(headers@), key@).is_none(),
        },
{
    let ghost views = header_views(headers@);
    let mut i: usize = 0;
    assert(views.skip(0) =~= views);
    while i < headers.len()
        invariant
            i <= headers.len(),
            views == header_views(headers@),
            header_value(views, key@) == header_value(views.skip(i as int), key@),
        decreases headers.len() - i,
    {
        proof {
            assert(views.skip(i as int).drop_first() =~= views.skip(i + 1));
            assert(views.skip(i as int)[0] == headers@[i as int]@);
        }
        if text_is(&headers[i].key, key) {
            return Some(&headers[i].value);
        }
        i = i + 1;
    }
    None
}

/// Finds the value of the first parameter named exactly `name`.
pub fn find_param<'a>(params: &'a Vec<Param>, name: &str) -> (value: Option<&'a String>)
    ensures
        match value {
            Some(text) => param_value(param_views(params@), name@) == Some(text@),
            None => param_value(param_views(params@), name@).is_none(),
        },
{
    let ghost views = param_views(params@);
    let mut i: usize = 0;
    assert(views.skip(0) =~= views);
    while i < params.len()
        invariant
            i <= params.len(),
            views == param_views(params@),
            param_value(views, name@) == param_value(views.skip(i as int), name@),
        decreases params.len() - i,
    {
        proof {
            assert(views.skip(i as int).drop_first() =~= views.skip(i + 1));
            assert(views.skip(i as int)[0] == params@[i as int]@);
        }
        if text_is(&params[i].name, name) {
            return Some(&params[i].value);
        }
        i = i + 1;
    }
    None
}

/// Decides from a decoded disposition whether the part is saved, and under
/// which name: only a part of kind `attachment` that declares a `filename`
/// is; an attachment without a name is dropped.
pub fn attachment_filename(disposition: &Disposition) -> (filename: Option<String>)
    ensures
        match filename {
            Some(name) => filename_of(disposition@) == Some(name@),
            None => filename_of(disposition@).is_none(),
        },
{
    match disposition.kind {
        DispositionKind::Attachment => match find_param(&disposition.params, "filename") {
            Some(name) => Some(name.clone()),
            None => None,
        },
        _ => None,
    }
}

/// Takes the attachments out of a parsed message. Only the direct subparts
/// are looked at. A subpart counts when its first `Content-Disposition`
/// header is of kind `attachment` and declares a `filename`; its decoded
/// body is kept under that name, in place of an earlier attachment of the
/// same name.
pub fn extract_attachments(mail: &Message) -> (found: Result<AttachmentSet, ExtractError>)
    ensures
        match found {
            Ok(set) => collect(mail@.parts) == Ok::<Seq<AttachmentView>, ExtractFailure>(set@),
            Err(error) => collect(mail@.parts) == Err::<Seq<AttachmentView>, ExtractFailure>(
                error@,
            ),
        },
{
    let ghost parts = mail@.parts;
    let mut set = AttachmentSet::new();
    let mut i: usize = 0;
    assert(parts.take(0) =~= Seq::empty());
    while i < mail.parts.len()
        invariant
            i <= mail.parts.len(),
            parts == mail@.parts,
            collect(parts.take(i as int)) == Ok::<Seq<AttachmentView>, ExtractFailure>(set@),
        decreases mail.parts.len() - i,
    {
        let part = &mail.parts[i];
        proof {
            assert(parts.take(i + 1).drop_last() =~= parts.take(i as int));
            assert(parts.take(i + 1).last() == part@);
        }
        match find_header(&part.headers, "Content-Disposition") {
            None => {},
            Some(value) => {
                let disposition = parse_disposition(value.as_str());
                match attachment_filename(&disposition) {
                    None => {},
                    Some(filename) => match &part.body {
                        None => {
                            proof {
                                lemma_collect_failure_stays(parts, i + 1);
                            }
                            return Err(ExtractError::Undecodable { part: i });
                        },
                        Some(content) => {
                            set.insert(filename, content.clone());
                        },
                    },
                }
            },
        }
        i = i + 1;
    }
    assert(parts.take(i as int) =~= parts);
    Ok(set)
}

/// Parses a raw message and takes its attachments out.
pub fn extract(raw: &[u8]) -> (found: Result<AttachmentSet, ExtractError>)
    ensures
        match found {
            Ok(set) => extraction(raw@) == Ok::<Seq<AttachmentView>, ExtractFailure>(set@),
            Err(error) => extraction(raw@) == Err::<Seq<AttachmentView>, ExtractFailure>(error@),
        },
{
    match parse_message(raw) {
        Ok(mail) => extract_attachments(&mail),
        Err(error) => Err(ExtractError::Malformed { reason: describe(&error) }),
    }
}

} // verus!
