//! The fields of a statute, read from the document that the document service
//! returns for it.

use select::document::Document;
use select::predicate::{Name, Predicate};
use vstd::prelude::*;
use vstd::string::StringSliceAdditionalSpecFns;

use crate::error::LawErrorKind;
use crate::law_id::LawID;

verus! {

/// In the document tree that `body` parses to, take the first element, in
/// document order, named `entry` that has an ancestor named `section`; the
/// result is the combined text of the first element named `tag` among its
/// descendants, or `None` when either element is not there.
pub uninterp spec fn section_tag_text(
    body: Seq<char>,
    section: Seq<char>,
    entry: Seq<char>,
    tag: Seq<char>,
) -> Option<Seq<char>>;

/// The byte of `<`, which opens every tag; in UTF-8 it stands for that
/// character alone.
pub const TAG_OPEN: u8 = 0x3c;

/// The longest body, in bytes, that is handed to the parser: well below the
/// 32-bit length of the parser's text buffers.
pub const MAX_BODY_BYTES: usize = 1_073_741_824;

/// The most tags a body handed to the parser may open. Each `<` opens at
/// most a few levels of nesting in the parsed tree, so this bounds its depth
/// and with it the depth of the recursive walks over the tree.
pub const MAX_TAG_OPENS: usize = 4096;

/// The number of `<` bytes in `b`.
pub open spec fn tag_opens(b: Seq<u8>) -> nat
    decreases b.len(),
{
    if b.len() == 0 {
        0
    } else {
        tag_opens(b.drop_last()) + if b.last() == TAG_OPEN {
            1nat
        } else {
            0nat
        }
    }
}

/// Whether a body with the bytes `b` is within what the parser is handed:
/// at most [`MAX_BODY_BYTES`] bytes and at most [`MAX_TAG_OPENS`] tags.
pub open spec fn within_parse_limits(b: Seq<u8>) -> bool {
    b.len() <= MAX_BODY_BYTES && tag_opens(b) <= MAX_TAG_OPENS
}

/// Whether `body` is within the parse limits: its length and the number of
/// its `<` characters.
pub fn fits_parse_limits(body: &str) -> (r: bool)
    ensures
        r == within_parse_limits(body.spec_bytes()),
{
    let b = body.as_bytes();
    let n = b.len();
    if n > MAX_BODY_BYTES {
        return false;
    }
    let mut opens: usize = 0;
    let mut i: usize = 0;
    while i < n
        invariant
            n == b@.len(),
            b@ == body.spec_bytes(),
            i <= n,
            opens == tag_opens(b@.subrange(0, i as int)),
            opens <= MAX_TAG_OPENS,
        decreases n - i,
    {
        assert(b@.subrange(0, i + 1).drop_last() =~= b@.subrange(0, i as int));
        if b[i] == TAG_OPEN {
            if opens == MAX_TAG_OPENS {
                proof {
                    lemma_tag_opens_prefix(b@, i + 1);
                }
                return false;
            }
            opens = opens + 1;
        }
        i = i + 1;
    }
    assert(b@.subrange(0, n as int) =~= b@);
    true
}

/// A prefix holds no more `<` than the whole.
proof fn lemma_tag_opens_prefix(b: Seq<u8>, k: int)
    requires
        0 <= k <= b.len(),
    ensures
        tag_opens(b.subrange(0, k)) <= tag_opens(b),
    decreases b.len() - k,
{
    if k < b.len() {
        lemma_tag_opens_prefix(b, k + 1);
        assert(b.subrange(0, k + 1).drop_last() =~= b.subrange(0, k));
    } else {
        assert(b.subrange(0, k) =~= b);
    }
}

/// Relies on select's `Document::from(&str)` to parse the body into a tree,
/// on `Document::find` with `Name(section).descendant(Name(entry))` and
/// `Node::find` with `Name(tag)` to take the first matching elements, and on
/// `Node::text` for the element's combined text. The parse and the text walk
/// recurse once per level of nesting, and the parser's buffers hold at most
/// 32-bit lengths: the body is kept within the parse limits.
#[verifier::external_body]
fn find_section_tag(body: &str, section: &str, entry: &str, tag: &str) -> (r: Option<String>)
    requires
        within_parse_limits(body.spec_bytes()),
    ensures
        r is Some <==> section_tag_text(body@, section@, entry@, tag@) is Some,
        r is Some ==> r->Some_0@ == section_tag_text(body@, section@, entry@, tag@)->Some_0,
{
    let document = Document::from(body);
    match document.find(Name(section).descendant(Name(entry))).next() {
        Some(node) => match node.find(Name(tag)).next() {
            Some(element) => Some(element.text()),
            None => None,
        },
        None => None,
    }
}

/// The element that holds a statute's document.
pub open spec fn section_name() -> Seq<char> {
    "dokumentstatus"@
}

/// The element, inside [`section_name`], that holds the statute's fields.
pub open spec fn entry_name() -> Seq<char> {
    "dokument"@
}

/// The elements that hold the fields of a statute, in the order of the
/// fields of [`LawData`].
pub open spec fn field_tags() -> Seq<Seq<char>> {
    seq![
        "rm"@,
        "nummer"@,
        "titel"@,
        "subtitel"@,
        "typ"@,
        "subtyp"@,
        "organ"@,
        "datum"@,
        "publicerad"@,
    ]
}

/// The number of fields of a statute.
pub const FIELD_COUNT: usize = 9;

/// The text of field `i` of the statute in the document `body`.
pub open spec fn document_field(body: Seq<char>, i: int) -> Option<Seq<char>> {
    section_tag_text(body, section_name(), entry_name(), field_tags()[i])
}

/// Whether the texts are the nine fields of a statute, each present.
pub open spec fn all_fields_present(texts: Seq<Option<String>>) -> bool {
    texts.len() == FIELD_COUNT && forall|i: int| 0 <= i < FIELD_COUNT ==> (#[trigger] texts[i]) is Some
}

/// The fields of a statute as found in its document.
#[derive(Debug, Clone, PartialEq)]
pub struct LawData {
    /// The parliamentary year ("riksmöte"), from `rm`.
    pub year: String,
    /// The number of the statute, from `nummer`.
    pub number: String,
    /// The title, from `titel`.
    pub title: String,
    /// The sub-title, from `subtitel`.
    pub sub_title: String,
    /// The kind of document, from `typ`.
    pub doc_type: String,
    /// The sub-kind of document, from `subtyp`.
    pub sub_type: String,
    /// The issuing department, from `organ`.
    pub department: String,
    /// The date of the statute, from `datum`.
    pub date: String,
    /// When the document was published, from `publicerad`.
    pub published: String,
}

impl LawData {
    /// The fields in order: year, number, title, sub-title, type, sub-type,
    /// department, date, publication status.
    pub open spec fn fields(&self) -> Seq<Seq<char>> {
        seq![
            self.year@,
            self.number@,
            self.title@,
            self.sub_title@,
            self.doc_type@,
            self.sub_type@,
            self.department@,
            self.date@,
            self.published@,
        ]
    }

    /// The element name of field `i`.
    fn field_tag(i: usize) -> (r: &'static str)
        requires
            i < FIELD_COUNT,
        ensures
            r@ == field_tags()[i as int],
    {
        if i == 0 {
            "rm"
        } else if i == 1 {
            "nummer"
        } else if i == 2 {
            "titel"
        } else if i == 3 {
            "subtitel"
        } else if i == 4 {
            "typ"
        } else if i == 5 {
            "subtyp"
        } else if i == 6 {
            "organ"
        } else if i == 7 {
            "datum"
        } else {
            "publicerad"
        }
    }

    /// Builds the record from the texts of its nine fields, in the order of
    /// [`LawData::fields`]. Succeeds exactly when there are nine texts and
    /// each is present; otherwise the data is refused with `DataFormatError`.
    pub fn from_tag_texts(texts: Vec<Option<String>>) -> (r: Result<LawData, LawErrorKind>)
        ensures
            r is Ok <==> all_fields_present(texts@),
            r is Ok ==> r->Ok_0.fields() == texts@.map_values(|t: Option<String>| t->Some_0@),
            r is Err ==> r->Err_0 is DataFormatError,
    {
        if texts.len() != FIELD_COUNT {
            return Err(LawErrorKind::DataFormatError);
        }
        let ghost all = texts@;
        let mut v = texts;
        let published = match v.pop() {
            Some(Some(t)) => t,
            _ => return Err(LawErrorKind::DataFormatError),
        };
        let date = match v.pop() {
            Some(Some(t)) => t,
            _ => return Err(LawErrorKind::DataFormatError),
        };
        let department = match v.pop() {
            Some(Some(t)) => t,
            _ => return Err(LawErrorKind::DataFormatError),
        };
        let sub_type = match v.pop() {
            Some(Some(t)) => t,
            _ => return Err(LawErrorKind::DataFormatError),
        };
        let doc_type = match v.pop() {
            Some(Some(t)) => t,
            _ => return Err(LawErrorKind::DataFormatError),
        };
        let sub_title = match v.pop() {
            Some(Some(t)) => t,
            _ => return Err(LawErrorKind::DataFormatError),
        };
        let title = match v.pop() {
            Some(Some(t)) => t,
            _ => return Err(LawErrorKind::DataFormatError),
        };
        let number = match v.pop() {
            Some(Some(t)) => t,
            _ => return Err(LawErrorKind::DataFormatError),
        };
        let year = match v.pop() {
            Some(Some(t)) => t,
            _ => return Err(LawErrorKind::DataFormatError),
        };
        let r = LawData {
            year,
            number,
            title,
            sub_title,
            doc_type,
            sub_type,
            department,
            date,
            published,
        };
        assert(r.fields() =~= all.map_values(|t: Option<String>| t->Some_0@));
        Ok(r)
    }

    /// Reads the record of a statute from the document that the document
    /// service returned for it. A body beyond the parse limits is not read,
    /// and is refused with `ParserError`. Otherwise this succeeds exactly when
    /// the document holds all nine fields, and the data is refused with
    /// `DataFormatError` when it does not.
    pub fn new(body: &str) -> (r: Result<LawData, LawErrorKind>)
        ensures
            r is Ok <==> within_parse_limits(body.spec_bytes()) && (forall|i: int|
                0 <= i < FIELD_COUNT ==> (#[trigger] document_field(body@, i)) is Some),
            r is Ok ==> forall|i: int| 0 <= i < FIELD_COUNT ==> r->Ok_0.fields()[i] == (#[trigger] document_field(body@, i))->Some_0,
            r is Err ==> (r->Err_0 is ParserError <==> !within_parse_limits(body.spec_bytes())),
            r is Err ==> r->Err_0 is ParserError || r->Err_0 is DataFormatError,
    {
        if !fits_parse_limits(body) {
            return Err(LawErrorKind::ParserError);
        }
        let mut texts: Vec<Option<String>> = Vec::new();
        let mut i: usize = 0;
        while i < FIELD_COUNT
            invariant
                within_parse_limits(body.spec_bytes()),
                i <= FIELD_COUNT,
                texts@.len() == i,
                forall|j: int| 0 <= j < i ==> (#[trigger] texts@[j] is Some) == (document_field(body@, j) is Some),
                forall|j: int| 0 <= j < i && texts@[j] is Some ==> (#[trigger] texts@[j])->Some_0@ == document_field(body@, j)->Some_0,
            decreases FIELD_COUNT - i,
        {
            let text = find_section_tag(body, "dokumentstatus", "dokument", LawData::field_tag(i));
            texts.push(text);
            i = i + 1;
        }
        let ghost all = texts@;
        let r = LawData::from_tag_texts(texts);
        proof {
            if r is Ok {
                assert forall|i: int| 0 <= i < FIELD_COUNT implies (#[trigger] document_field(body@, i)) is Some by {
                    assert(all[i] is Some);
                }
            } else {
                if forall|i: int| 0 <= i < FIELD_COUNT ==> (#[trigger] document_field(body@, i)) is Some {
                    assert forall|i: int| 0 <= i < FIELD_COUNT implies (#[trigger] all[i]) is Some by {
                        assert(document_field(body@, i) is Some);
                    }
                }
            }
        }
        r
    }
}

/// A statute: its identifier, its fields, and the statutes it refers to.
pub struct Law {
    /// The statute's identifier.
    pub id: LawID,
    /// The fields read from the statute's document.
    pub data: LawData,
    /// The statutes that this one refers to.
    pub refs: Vec<LawID>,
}

impl Law {
    /// Reads the statute `id` from the document that the document service
    /// returned for it, with no references yet; refused as [`LawData::new`]
    /// refuses the document.
    pub fn from_document(id: LawID, body: &str) -> (r: Result<Law, LawErrorKind>)
        ensures
            r is Ok <==> within_parse_limits(body.spec_bytes()) && (forall|i: int|
                0 <= i < FIELD_COUNT ==> (#[trigger] document_field(body@, i)) is Some),
            r is Ok ==> r->Ok_0.id == id && r->Ok_0.refs@.len() == 0,
            r is Ok ==> forall|i: int| 0 <= i < FIELD_COUNT ==> r->Ok_0.data.fields()[i] == (#[trigger] document_field(body@, i))->Some_0,
            r is Err ==> (r->Err_0 is ParserError <==> !within_parse_limits(body.spec_bytes())),
            r is Err ==> r->Err_0 is ParserError || r->Err_0 is DataFormatError,
    {
        match LawData::new(body) {
            Ok(data) => Ok(Law { id, data, refs: Vec::new() }),
            Err(e) => Err(e),
        }
    }
}

} // verus!
