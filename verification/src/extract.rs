//! Extraction of question records from a markup dump. Every element of the
//! dump is looked at through its attributes; an element that describes a
//! question with a score of zero or more becomes a record without an embedding.

use crate::merge::corpus_view;
use crate::record::{Record, RecordView};
use crate::text::{parse_i64, parse_u32, parsed_i64, parsed_u32, trim_text, trimmed};
use vstd::prelude::*;
use vstd::string::StringExecFns;

verus! {

/// An attribute of an element: its local name and its value.
#[derive(Debug, PartialEq, Eq)]
pub struct Attribute {
    pub name: String,
    pub value: String,
}

/// The attributes of an element as pairs of name and value.
pub open spec fn attributes_view(attributes: Seq<Attribute>) -> Seq<(Seq<char>, Seq<char>)> {
    Seq::new(attributes.len(), |k: int| (attributes[k].name@, attributes[k].value@))
}

/// The attribute lists of the nodes of a document.
pub open spec fn nodes_view(nodes: Seq<Vec<Attribute>>) -> Seq<Seq<(Seq<char>, Seq<char>)>> {
    Seq::new(nodes.len(), |i: int| attributes_view(nodes[i]@))
}

/// What the XML parser makes of `text`: for each node of the document, in
/// document order, its attributes in the order in which they are written, or
/// `None` where the text is not a document that the parser accepts.
pub uninterp spec fn xml_attributes(text: Seq<char>) -> Option<
    Seq<Seq<(Seq<char>, Seq<char>)>>,
>;

/// `text` with its HTML tags taken out.
pub uninterp spec fn stripped_tags(text: Seq<char>) -> Seq<char>;

/// The error of `roxmltree::Document::parse`, carried as an opaque value.
#[verifier::external_type_specification]
#[verifier::external_body]
pub struct ExXmlError(roxmltree::Error);

/// Calls `roxmltree::Document::parse`, walks the document with
/// `Document::descendants` and copies each node's `Node::attributes`, by
/// `Attribute::name` and `Attribute::value`. Trusted: what comes back depends
/// on the text alone, and the parser's error is handed on as it is.
#[verifier::external_body]
fn parse_nodes(text: &str) -> (nodes: Result<Vec<Vec<Attribute>>, roxmltree::Error>)
    ensures
        (match nodes {
            Ok(list) => xml_attributes(text@) == Some(nodes_view(list@)),
            Err(_) => xml_attributes(text@) is None,
        }),
{
    let document = roxmltree::Document::parse(text)?;
    Ok(
        document.descendants().map(
            |node|
                node.attributes().map(
                    |a| Attribute { name: a.name().to_string(), value: a.value().to_string() },
                ).collect(),
        ).collect(),
    )
}

/// Calls `voca_rs::strip::strip_tags`. Trusted: what comes back depends on the
/// text alone.
#[verifier::external_body]
fn strip_tags(text: &str) -> (plain: String)
    ensures
        plain@ == stripped_tags(text@),
{
    voca_rs::strip::strip_tags(text)
}

/// Why a dump could not be turned into records.
#[derive(Debug, Clone, Copy, PartialEq, Eq, Structural)]
pub enum ExtractError {
    /// The text is not a well-formed document.
    MalformedDocument,
    /// A question's score is not a number.
    BadScore,
    /// A question has no id.
    MissingId,
    /// A question's id is not an unsigned 32-bit number.
    BadId,
    /// A question has no body.
    MissingBody,
    /// A question has no tags.
    MissingTags,
    /// A question has no title.
    MissingTitle,
}

/// The value of the first attribute with this name.
pub open spec fn first_value(attributes: Seq<(Seq<char>, Seq<char>)>, name: Seq<char>) -> Option<
    Seq<char>,
>
    decreases attributes.len(),
{
    if attributes.len() == 0 {
        None
    } else if attributes.first().0 == name {
        Some(attributes.first().1)
    } else {
        first_value(attributes.drop_first(), name)
    }
}

/// The element is a question: it has the post type 1.
pub open spec fn is_question(attributes: Seq<(Seq<char>, Seq<char>)>) -> bool {
    exists|k: int|
        0 <= k < attributes.len() && (#[trigger] attributes[k]).0 == "PostTypeId"@
            && attributes[k].1 == "1"@
}

/// Whether the element has a score of zero or more. The scores are read in
/// the order in which they are written, up to the first that is zero or more;
/// one that is not a number on the way is an error.
pub open spec fn score_verdict(attributes: Seq<(Seq<char>, Seq<char>)>) -> Result<
    bool,
    ExtractError,
>
    decreases attributes.len(),
{
    if attributes.len() == 0 {
        Ok(false)
    } else if attributes.first().0 == "Score"@ {
        match parsed_i64(attributes.first().1) {
            None => Err(ExtractError::BadScore),
            Some(score) => if score >= 0 {
                Ok(true)
            } else {
                score_verdict(attributes.drop_first())
            },
        }
    } else {
        score_verdict(attributes.drop_first())
    }
}

/// What an element's attributes make: no record where the element is not a
/// question or has no score of zero or more; otherwise the record made from
/// its id, title, tags and body, the body trimmed and stripped of its tags; or
/// the first thing that is wrong with it.
pub open spec fn question_in(attributes: Seq<(Seq<char>, Seq<char>)>) -> Result<
    Option<RecordView>,
    ExtractError,
> {
    if !is_question(attributes) {
        Ok(None)
    } else {
        match score_verdict(attributes) {
            Err(e) => Err(e),
            Ok(false) => Ok(None),
            Ok(true) => question_fields(attributes),
        }
    }
}

/// The record made from the attributes of a question.
pub open spec fn question_fields(attributes: Seq<(Seq<char>, Seq<char>)>) -> Result<
    Option<RecordView>,
    ExtractError,
> {
    match first_value(attributes, "Id"@) {
        None => Err(ExtractError::MissingId),
        Some(id_text) => match parsed_u32(id_text) {
            None => Err(ExtractError::BadId),
            Some(id) => match first_value(attributes, "Body"@) {
                None => Err(ExtractError::MissingBody),
                Some(body) => match first_value(attributes, "Tags"@) {
                    None => Err(ExtractError::MissingTags),
                    Some(tags) => match first_value(attributes, "Title"@) {
                        None => Err(ExtractError::MissingTitle),
                        Some(title) => Ok(
                            Some(
                                RecordView {
                                    id,
                                    title,
                                    body: stripped_tags(trimmed(body)),
                                    tags,
                                    embedding: None,
                                },
                            ),
                        ),
                    },
                },
            },
        },
    }
}

/// The records that the nodes of a document make, in document order, or the
/// first error on the way.
pub open spec fn records_in(nodes: Seq<Seq<(Seq<char>, Seq<char>)>>) -> Result<
    Seq<RecordView>,
    ExtractError,
>
    decreases nodes.len(),
{
    if nodes.len() == 0 {
        Ok(Seq::empty())
    } else {
        match records_in(nodes.drop_last()) {
            Err(e) => Err(e),
            Ok(records) => match question_in(nodes.last()) {
                Err(e) => Err(e),
                Ok(None) => Ok(records),
                Ok(Some(record)) => Ok(records.push(record)),
            },
        }
    }
}

/// The records that a dump makes.
pub open spec fn records_of_text(text: Seq<char>) -> Result<Seq<RecordView>, ExtractError> {
    match xml_attributes(text) {
        None => Err(ExtractError::MalformedDocument),
        Some(nodes) => records_in(nodes),
    }
}

/// The view of an optional record, or of the error in its place.
pub open spec fn question_view(outcome: Result<Option<Record>, ExtractError>) -> Result<
    Option<RecordView>,
    ExtractError,
> {
    match outcome {
        Ok(Some(record)) => Ok(Some(record@)),
        Ok(None) => Ok(None),
        Err(e) => Err(e),
    }
}

/// The view of a list of records, or of the error in its place.
pub open spec fn records_view(outcome: Result<Vec<Record>, ExtractError>) -> Result<
    Seq<RecordView>,
    ExtractError,
> {
    match outcome {
        Ok(records) => Ok(corpus_view(records@)),
        Err(e) => Err(e),
    }
}

fn find_value(attributes: &Vec<Attribute>, name: &String) -> (found: Option<usize>)
    ensures
        (match found {
            Some(k) => k < attributes@.len() && first_value(attributes_view(attributes@), name@)
                == Some(attributes@[k as int].value@),
            None => first_value(attributes_view(attributes@), name@) is None,
        }),
{
    let ghost all = attributes_view(attributes@);
    let mut k: usize = 0;
    assert(all.skip(0) =~= all);
    while k < attributes.len()
        invariant
            k <= attributes.len(),
            all == attributes_view(attributes@),
            first_value(all, name@) == first_value(all.skip(k as int), name@),
        decreases attributes.len() - k,
    {
        assert(all.skip(k as int).first() == all[k as int]);
        if attributes[k].name == *name {
            return Some(k);
        }
        assert(all.skip(k as int).drop_first() =~= all.skip(k + 1));
        k += 1;
    }
    None
}

fn has_question_type(attributes: &Vec<Attribute>) -> (found: bool)
    ensures
        found == is_question(attributes_view(attributes@)),
{
    let ghost all = attributes_view(attributes@);
    let name = String::from_str("PostTypeId");
    let one = String::from_str("1");
    let mut k: usize = 0;
    while k < attributes.len()
        invariant
            k <= attributes.len(),
            all == attributes_view(attributes@),
            name@ == "PostTypeId"@,
            one@ == "1"@,
            forall|j: int|
                0 <= j < k ==> !((#[trigger] all[j]).0 == "PostTypeId"@ && all[j].1 == "1"@),
        decreases attributes.len() - k,
    {
        if attributes[k].name == name && attributes[k].value == one {
            assert(all[k as int].0 == "PostTypeId"@ && all[k as int].1 == "1"@);
            return true;
        }
        k += 1;
    }
    false
}

fn has_score(attributes: &Vec<Attribute>) -> (verdict: Result<bool, ExtractError>)
    ensures
        verdict == score_verdict(attributes_view(attributes@)),
{
    let ghost all = attributes_view(attributes@);
    let name = String::from_str("Score");
    let mut k: usize = 0;
    assert(all.skip(0) =~= all);
    while k < attributes.len()
        invariant
            k <= attributes.len(),
            all == attributes_view(attributes@),
            name@ == "Score"@,
            score_verdict(all) == score_verdict(all.skip(k as int)),
        decreases attributes.len() - k,
    {
        assert(all.skip(k as int).first() == all[k as int]);
        assert(all.skip(k as int).drop_first() =~= all.skip(k + 1));
        if attributes[k].name == name {
            match parse_i64(attributes[k].value.as_str()) {
                None => {
                    return Err(ExtractError::BadScore);
                },
                Some(score) => {
                    if score >= 0 {
                        return Ok(true);
                    }
                },
            }
        }
        k += 1;
    }
    Ok(false)
}

/// Makes the record of an element from its attributes, if the element is a
/// question with a score of zero or more.
pub fn question_of(attributes: &Vec<Attribute>) -> (outcome: Result<Option<Record>, ExtractError>)
    ensures
        question_view(outcome) == question_in(attributes_view(attributes@)),
{
    if !has_question_type(attributes) {
        return Ok(None);
    }
    match has_score(attributes) {
        Err(e) => {
            return Err(e);
        },
        Ok(false) => {
            return Ok(None);
        },
        Ok(true) => {},
    }
    let id_name = String::from_str("Id");
    let body_name = String::from_str("Body");
    let tags_name = String::from_str("Tags");
    let title_name = String::from_str("Title");
    let id = match find_value(attributes, &id_name) {
        None => {
            return Err(ExtractError::MissingId);
        },
        Some(k) => match parse_u32(attributes[k].value.as_str()) {
            None => {
                return Err(ExtractError::BadId);
            },
            Some(id) => id,
        },
    };
    let body = match find_value(attributes, &body_name) {
        None => {
            return Err(ExtractError::MissingBody);
        },
        Some(k) => {
            let inner = trim_text(attributes[k].value.as_str());
            strip_tags(inner.as_str())
        },
    };
    let tags = match find_value(attributes, &tags_name) {
        None => {
            return Err(ExtractError::MissingTags);
        },
        Some(k) => attributes[k].value.clone(),
    };
    let title = match find_value(attributes, &title_name) {
        None => {
            return Err(ExtractError::MissingTitle);
        },
        Some(k) => attributes[k].value.clone(),
    };
    Ok(Some(Record { id, title, body, tags, embedding: None }))
}

/// Makes the records of the nodes of a document, in document order. The first
/// error ends the work.
pub fn records_of(nodes: &Vec<Vec<Attribute>>) -> (outcome: Result<Vec<Record>, ExtractError>)
    ensures
        records_view(outcome) == records_in(nodes_view(nodes@)),
{
    let ghost all = nodes_view(nodes@);
    let mut records: Vec<Record> = Vec::new();
    let mut i: usize = 0;
    assert(corpus_view(records@) =~= Seq::empty());
    while i < nodes.len()
        invariant
            i <= nodes.len(),
            all == nodes_view(nodes@),
            records_in(all.take(i as int)) == Ok::<Seq<RecordView>, ExtractError>(
                corpus_view(records@),
            ),
        decreases nodes.len() - i,
    {
        assert(all.take(i + 1).drop_last() =~= all.take(i as int));
        assert(all.take(i + 1).last() == attributes_view(nodes@[i as int]@));
        let ghost before = corpus_view(records@);
        match question_of(&nodes[i]) {
            Err(e) => {
                proof {
                    lemma_error_stays(all, i + 1);
                }
                return Err(e);
            },
            Ok(None) => {},
            Ok(Some(record)) => {
                records.push(record);
                assert(corpus_view(records@) =~= before.push(record@));
            },
        }
        i += 1;
    }
    assert(all.take(i as int) =~= all);
    Ok(records)
}

/// Once a prefix of the nodes fails, the whole fails with the same error.
proof fn lemma_error_stays(nodes: Seq<Seq<(Seq<char>, Seq<char>)>>, upto: int)
    requires
        0 <= upto <= nodes.len(),
        records_in(nodes.take(upto)) is Err,
    ensures
        records_in(nodes) == records_in(nodes.take(upto)),
    decreases nodes.len() - upto,
{
    if upto == nodes.len() {
        assert(nodes.take(upto) =~= nodes);
    } else {
        assert(nodes.take(upto + 1).drop_last() =~= nodes.take(upto));
        lemma_error_stays(nodes, upto + 1);
    }
}

/// Reads a dump and makes its records.
pub fn extract_records(text: &str) -> (outcome: Result<Vec<Record>, ExtractError>)
    ensures
        records_view(outcome) == records_of_text(text@),
{
    match parse_nodes(text) {
        Err(_) => Err(ExtractError::MalformedDocument),
        Ok(nodes) => records_of(&nodes),
    }
}

} // verus!
