//! What an HTTP request is answered.
use crate::json::{json_text, json_to_string, json_tree, reads_as, JsonTree};
use vstd::prelude::*;

verus! {

/// What kind of body an answer has.
#[derive(Clone, Copy, Debug, PartialEq, Eq, Structural)]
pub enum Content {
    /// Plain text.
    Text,
    /// A JSON document.
    Json,
}

/// An answer: its status code, and its body.
#[derive(Debug)]
pub struct Reply {
    pub status: u16,
    pub content: Content,
    pub body: String,
}

/// What an answer is.
pub struct ReplyView {
    pub status: u16,
    pub content: Content,
    pub body: Seq<char>,
}

impl View for Reply {
    type V = ReplyView;

    open spec fn view(&self) -> ReplyView {
        ReplyView { status: self.status, content: self.content, body: self.body@ }
    }
}

/// An answer with a text.
pub open spec fn text_reply(status: u16, body: Seq<char>) -> ReplyView {
    ReplyView { status, content: Content::Text, body }
}

/// An answer with a JSON document.
pub open spec fn json_reply(status: u16, tree: JsonTree) -> ReplyView {
    ReplyView { status, content: Content::Json, body: json_text(tree) }
}

impl Reply {
    /// An answer with a text.
    pub fn text(status: u16, body: &str) -> (reply: Reply)
        ensures
            reply@ == text_reply(status, body@),
    {
        Reply { status, content: Content::Text, body: body.to_owned() }
    }

    /// An answer with a JSON document, which its body is read as.
    pub fn json(status: u16, value: &serde_json::Value) -> (reply: Reply)
        ensures
            reply@ == json_reply(status, json_tree(*value)),
            reads_as(reply@.body, json_tree(*value)),
    {
        Reply { status, content: Content::Json, body: json_to_string(value) }
    }
}

/// An answer with a text has the status and the text as they were given, and one with a document
/// has the status and the document's compact text.
pub proof fn law_answers(reply: Reply, status: u16, body: Seq<char>, tree: JsonTree)
    ensures
        reply@ == text_reply(status, body) <==> reply.status == status && reply.content == Content::Text && reply.body@
            == body,
        reply@ == json_reply(status, tree) <==> reply.status == status && reply.content == Content::Json && reply.body@
            == json_text(tree),
{
}

} // verus!
