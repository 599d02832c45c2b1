//! Which GraphQL requests a service answers, and what each one asks for.

use crate::http::{reply, HttpReply, HttpRequest};
use crate::text::{
    begins_with, find_byte, has_prefix, index_of, lemma_index_of, same_bytes, same_text, utf8,
};
use vstd::prelude::*;
use vstd::slice::slice_subrange;

verus! {

/// What a request asks of the GraphQL endpoint.
#[derive(Clone, Copy, Debug, PartialEq, Eq, Structural)]
pub enum GraphqlAction {
    /// The request is not for the GraphQL endpoint.
    NotServed,
    /// Run the query that the target holds from byte `from` on, and answer
    /// with its result as `application/json`.
    RunQuery { from: usize },
    /// Answer with the schema.
    SendSchema,
    /// Run the query that the body holds, read by its content type, and answer
    /// with its result as `application/json`.
    RunBody,
}

/// What a request asks of the GraphQL endpoint.
///
/// The target is split at its first `?`. A request is served if what stands
/// before is `/graphql` and its method is `GET` or `POST`. Where what stands
/// after begins with `?query=`, the rest is a query to run. Else a `GET` asks
/// for the schema, and a `POST` holds a query in its body.
pub open spec fn graphql_route(request: HttpRequest) -> GraphqlAction {
    let target = utf8(request.target@);
    let mark = index_of(target, 0x3F, 0);
    let base = target.subrange(0, mark as int);
    let args = if mark < target.len() {
        target.subrange((mark + 1) as int, target.len() as int)
    } else {
        Seq::empty()
    };
    let lead = utf8("?query="@);
    if base != utf8("/graphql"@) || (request.method@ != "GET"@ && request.method@ != "POST"@) {
        GraphqlAction::NotServed
    } else if mark < target.len() && begins_with(args, lead) {
        GraphqlAction::RunQuery { from: (mark + 1 + lead.len()) as usize }
    } else if request.method@ == "GET"@ {
        GraphqlAction::SendSchema
    } else {
        GraphqlAction::RunBody
    }
}

/// Decides what a request asks of the GraphQL endpoint.
pub fn route_graphql(request: &HttpRequest) -> (action: GraphqlAction)
    ensures
        action == graphql_route(*request),
        match action {
            GraphqlAction::RunQuery { from } => from <= utf8(request.target@).len(),
            _ => true,
        },
{
    let target = request.target.as_str().as_bytes();
    let total: usize = target.len();
    let mark: usize = match find_byte(target, 0x3F) {
        Some(at) => at,
        None => total,
    };
    proof {
        lemma_index_of(target@, 0x3F, 0, mark as nat);
    }
    let base = slice_subrange(target, 0, mark);
    let args = if mark < total {
        slice_subrange(target, mark + 1, total)
    } else {
        slice_subrange(target, total, total)
    };
    proof {
        assert(target@.subrange(total as int, total as int) =~= Seq::<u8>::empty());
    }
    let get = same_text(request.method.as_str(), "GET");
    let post = same_text(request.method.as_str(), "POST");
    let lead = "?query=".as_bytes();
    if !same_bytes(base, "/graphql".as_bytes()) || (!get && !post) {
        GraphqlAction::NotServed
    } else if mark < total && has_prefix(args, lead) {
        GraphqlAction::RunQuery { from: mark + 1 + lead.len() }
    } else if get {
        GraphqlAction::SendSchema
    } else {
        GraphqlAction::RunBody
    }
}

/// The content type of the answer to what a request asks of the GraphQL
/// endpoint: `text` for the schema, `application/json` for the result of a
/// query; none for a request that is not served.
pub open spec fn graphql_content_type(action: GraphqlAction) -> Option<Seq<char>> {
    match action {
        GraphqlAction::NotServed => None,
        GraphqlAction::SendSchema => Some("text"@),
        GraphqlAction::RunQuery { from } => Some("application/json"@),
        GraphqlAction::RunBody => Some("application/json"@),
    }
}

/// The answer to what a request asks of the GraphQL endpoint, once the engine
/// has written `body` for it: `body` under the content type of the action,
/// with no headers; no answer to a request that is not served.
pub fn graphql_reply(action: GraphqlAction, body: Vec<u8>) -> (answer: Option<HttpReply>)
    ensures
        answer is Some <==> graphql_content_type(action) is Some,
        answer is Some ==> answer->Some_0.is(graphql_content_type(action)->Some_0, body@),
{
    match action {
        GraphqlAction::NotServed => None,
        GraphqlAction::SendSchema => Some(reply("text", body)),
        GraphqlAction::RunQuery { from } => Some(reply("application/json", body)),
        GraphqlAction::RunBody => Some(reply("application/json", body)),
    }
}

} // verus!
