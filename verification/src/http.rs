//! Serving a service's developer pages: which requests are answered, and with
//! what.

use crate::json::{tree_from, Document, Json};
use crate::layout::{encodable, packed_bytes};
use crate::schema::{Shape, Type};
use crate::text::{rest_after, same_text, strip_prefix, utf8};
use vstd::prelude::*;
use vstd::string::StrSliceExecFns;

verus! {

/// The page that `serve_simple_index` answers with.
pub const SIMPLE_UI: &'static str =
    "<html><div id=\"root\" class=\"ui container\"></div><script src=\"/common/SimpleUI.mjs\" type=\"module\"></script></html>";

/// One header of a reply.
pub struct HttpHeader {
    pub name: String,
    pub value: String,
}

/// A request as it reaches a service.
#[allow(non_snake_case)]
pub struct HttpRequest {
    pub method: String,
    pub target: String,
    pub contentType: String,
    pub body: Vec<u8>,
}

/// A service's answer to a request.
#[allow(non_snake_case)]
pub struct HttpReply {
    pub contentType: String,
    pub body: Vec<u8>,
    pub headers: Vec<HttpHeader>,
}

/// What a service tells about itself. A service implements this; nothing is
/// claimed of what its functions return.
pub trait Reflect {
    /// The schema that defines the service's interface, as JSON text.
    fn create_schema() -> Vec<u8>;

    /// The action templates of the service: a JSON object with one field for
    /// each action, named like the action, that holds sample arguments.
    fn generate_action_templates() -> String;
}

impl HttpRequest {
    /// Whether this request has the given method and the given target.
    pub open spec fn asks(self, method: Seq<char>, target: Seq<char>) -> bool {
        self.method@ == method && self.target@ == target
    }
}

impl HttpReply {
    /// Whether this reply has the given content type, and no headers.
    pub open spec fn has(self, content_type: Seq<char>) -> bool {
        self.contentType@ == content_type && self.headers@.len() == 0
    }

    /// Whether this reply has the given content type and body, and no headers.
    pub open spec fn is(self, content_type: Seq<char>, body: Seq<u8>) -> bool {
        self.has(content_type) && self.body@ == body
    }
}

/// A reply with the given content type and body, and no headers.
pub fn reply(content_type: &str, body: Vec<u8>) -> (reply: HttpReply)
    ensures
        reply.is(content_type@, body@),
{
    HttpReply { contentType: content_type.to_owned(), body, headers: Vec::new() }
}

/// Whether `request` has the given method and the given target.
pub fn asks(request: &HttpRequest, method: &str, target: &str) -> (yes: bool)
    ensures
        yes == request.asks(method@, target@),
{
    same_text(request.method.as_str(), method) && same_text(request.target.as_str(), target)
}

/// Whether `serve_simple_index` answers a request: `GET /` or `GET /index.html`.
pub open spec fn asks_for_index(request: HttpRequest) -> bool {
    request.asks("GET"@, "/"@) || request.asks("GET"@, "/index.html"@)
}

/// Serves the page of the developer UI for `GET /` and for `GET /index.html`:
/// `SIMPLE_UI`, as `text/html`. Any other request gets no answer.
pub fn serve_simple_index(request: &HttpRequest) -> (answer: Option<HttpReply>)
    ensures
        answer is Some <==> asks_for_index(*request),
        answer is Some ==> answer->Some_0.is("text/html"@, utf8(SIMPLE_UI@)),
{
    if asks(request, "GET", "/") || asks(request, "GET", "/index.html") {
        Some(reply("text/html", SIMPLE_UI.as_bytes_vec()))
    } else {
        None
    }
}

/// The reply that holds a text, as `text/html`.
pub fn page(text: &str) -> (reply: HttpReply)
    ensures
        reply.is("text/html"@, utf8(text@)),
{
    reply("text/html", text.as_bytes_vec())
}

/// Whether `reply` holds, as `text/html`, a schema that the service's
/// `create_schema` returned.
pub open spec fn holds_schema<Wrapper: Reflect>(reply: HttpReply) -> bool {
    exists|schema: Vec<u8>| #[trigger]
        call_ensures(Wrapper::create_schema, (), schema) && reply.is("text/html"@, schema@)
}

/// Whether `reply` holds, as `text/html`, the UTF-8 bytes of action templates
/// that the service's `generate_action_templates` returned.
pub open spec fn holds_action_templates<Wrapper: Reflect>(reply: HttpReply) -> bool {
    exists|text: String| #[trigger]
        call_ensures(Wrapper::generate_action_templates, (), text) && reply.is(
            "text/html"@,
            utf8(text@),
        )
}

/// Serves the service's schema for `GET /schema`: what the service's
/// `create_schema` returns, as `text/html`. Any other request gets no answer,
/// and `create_schema` is not called for it.
pub fn serve_schema<Wrapper: Reflect>(request: &HttpRequest) -> (answer: Option<HttpReply>)
    ensures
        answer is Some <==> request.asks("GET"@, "/schema"@),
        answer is Some ==> holds_schema::<Wrapper>(answer->Some_0),
{
    if asks(request, "GET", "/schema") {
        let schema = Wrapper::create_schema();
        let ghost written = schema;
        let answer = reply("text/html", schema);
        proof {
            assert(call_ensures(Wrapper::create_schema, (), written));
        }
        Some(answer)
    } else {
        None
    }
}

/// Serves the service's action templates for `GET /action_templates`: the
/// UTF-8 bytes of what the service's `generate_action_templates` returns, as
/// `text/html`. Any other request gets no answer, and
/// `generate_action_templates` is not called for it.
pub fn serve_action_templates<Wrapper: Reflect>(request: &HttpRequest) -> (answer: Option<
    HttpReply,
>)
    ensures
        answer is Some <==> request.asks("GET"@, "/action_templates"@),
        answer is Some ==> holds_action_templates::<Wrapper>(answer->Some_0),
{
    if asks(request, "GET", "/action_templates") {
        let text = Wrapper::generate_action_templates();
        let answer = page(text.as_str());
        proof {
            assert(call_ensures(Wrapper::generate_action_templates, (), text));
        }
        Some(answer)
    } else {
        None
    }
}

/// The actions of a service, by name. A service implements this; nothing is
/// claimed of what its function returns.
pub trait WithActionStruct {
    /// The type of the arguments of the action of the given name, if the
    /// service has an action of that name.
    fn with_action_struct(action: &str) -> Option<Type>;
}

/// The name of the action that a request asks to pack arguments for: what
/// follows `/pack_action/` in the target of a `POST`.
pub open spec fn pack_action_name(request: HttpRequest) -> Option<Seq<char>> {
    if request.method@ == "POST"@ {
        rest_after(request.target@, "/pack_action/"@)
    } else {
        None
    }
}

/// The name of the action that a request asks to pack arguments for, if it
/// asks for that.
pub fn asked_action(request: &HttpRequest) -> (name: Option<&str>)
    ensures
        match name {
            Some(action) => pack_action_name(*request) == Some(action@),
            None => pack_action_name(*request) is None,
        },
{
    if same_text(request.method.as_str(), "POST") {
        strip_prefix(request.target.as_str(), "/pack_action/")
    } else {
        None
    }
}

/// The packed arguments of an action: the record of the given shape that the
/// document stands for, packed. There are none where the document stands for
/// no such record, or for one that cannot be packed.
pub open spec fn packed_arguments(shape: Shape, args: Document) -> Option<Seq<u8>> {
    match tree_from(shape, args) {
        Some(tree) => if encodable(tree) {
            Some(packed_bytes(tree))
        } else {
            None
        },
        None => None,
    }
}

/// Whether a document holds the arguments of an action whose arguments are of
/// the given type: whether there are packed arguments.
pub fn holds_arguments(ty: &Type, args: &Json) -> (yes: bool)
    ensures
        yes == packed_arguments(ty@, args@) is Some,
{
    match ty.from_json(args) {
        Some(value) => value.is_encodable(),
        None => false,
    }
}

/// The reply that holds the packed arguments of an action, as
/// `application/octet-stream`. The document must hold the arguments.
pub fn pack_action(ty: &Type, args: &Json) -> (reply: HttpReply)
    requires
        packed_arguments(ty@, args@) is Some,
    ensures
        reply.is("application/octet-stream"@, packed_arguments(ty@, args@)->Some_0),
{
    let value = ty.from_json(args).unwrap();
    reply("application/octet-stream", value.packed())
}

/// What a handler makes of a request that may ask to pack an action's
/// arguments.
pub enum Served {
    /// The handler answers with this reply.
    Reply(HttpReply),
    /// The request is not for the handler, or names an action that the service
    /// does not have.
    NotServed,
    /// The request names an action of the service, and the document does not
    /// hold the arguments of that action.
    BadArguments,
}

/// Whether `served` is what is owed once the service was asked for the type of
/// an action's arguments and `found` came back: for a type, the packed
/// arguments that `args` holds as that type, as `application/octet-stream`, or
/// `BadArguments` where `args` holds none; for no type, `NotServed`.
pub open spec fn serves_action(served: Served, found: Option<Type>, args: Document) -> bool {
    match found {
        Some(ty) => match packed_arguments(ty@, args) {
            Some(bytes) => served is Reply && served->Reply_0.is("application/octet-stream"@, bytes),
            None => served is BadArguments,
        },
        None => served is NotServed,
    }
}

/// Whether `served` is what is owed to a request to pack an action's
/// arguments: `NotServed` for a request that names no action; else what is
/// owed for a type that the service's `with_action_struct` returned for the
/// name.
pub open spec fn serves_pack_action<Wrapper: WithActionStruct>(
    request: HttpRequest,
    args: Document,
    served: Served,
) -> bool {
    match pack_action_name(request) {
        Some(name) => exists|action: &str, found: Option<Type>|
            {
                &&& #[trigger] call_ensures(Wrapper::with_action_struct, (action,), found)
                &&& action@ == name
                &&& serves_action(served, found, args)
            },
        None => served is NotServed,
    }
}

/// Serves `POST /pack_action/x`, where `x` is an action of the service: the
/// arguments of `x`, given as the JSON document `args` that the request's body
/// holds, packed, as `application/octet-stream`.
///
/// The service's `with_action_struct` is asked for the type of `x`. Where it
/// gives one and `args` holds the arguments, the answer is what `pack_action`
/// makes of them; where `args` does not hold them, `BadArguments`. Any other
/// request is not served, and `with_action_struct` is not called for it.
pub fn try_serve_pack_action<Wrapper: WithActionStruct>(
    request: &HttpRequest,
    args: &Json,
) -> (served: Served)
    ensures
        serves_pack_action::<Wrapper>(*request, args@, served),
{
    match asked_action(request) {
        Some(name) => {
            let found = Wrapper::with_action_struct(name);
            let served = match &found {
                Some(ty) => if holds_arguments(ty, args) {
                    Served::Reply(pack_action(ty, args))
                } else {
                    Served::BadArguments
                },
                None => Served::NotServed,
            };
            proof {
                assert(call_ensures(Wrapper::with_action_struct, (name,), found));
                assert(serves_action(served, found, args@));
            }
            served
        },
        None => Served::NotServed,
    }
}

/// Whether `served` is what the first of `serve_simple_index`, `serve_schema`,
/// `serve_action_templates` and `try_serve_pack_action` that serves a request
/// makes of it, tried in this order.
pub open spec fn serves_simple_ui<Wrapper: Reflect + WithActionStruct>(
    request: HttpRequest,
    args: Document,
    served: Served,
) -> bool {
    if asks_for_index(request) {
        served is Reply && served->Reply_0.is("text/html"@, utf8(SIMPLE_UI@))
    } else if request.asks("GET"@, "/schema"@) {
        served is Reply && holds_schema::<Wrapper>(served->Reply_0)
    } else if request.asks("GET"@, "/action_templates"@) {
        served is Reply && holds_action_templates::<Wrapper>(served->Reply_0)
    } else {
        serves_pack_action::<Wrapper>(request, args, served)
    }
}

/// Serves the developer UI of a service: what the first of
/// `serve_simple_index`, `serve_schema`, `serve_action_templates` and
/// `try_serve_pack_action` that serves the request makes of it, tried in this
/// order, where `args` is the JSON document that the request's body holds.
/// Handlers after that one are not run.
pub fn try_serve_simple_ui<Wrapper: Reflect + WithActionStruct>(
    request: &HttpRequest,
    args: &Json,
) -> (served: Served)
    ensures
        serves_simple_ui::<Wrapper>(*request, args@, served),
{
    match serve_simple_index(request) {
        Some(index) => {
            return Served::Reply(index);
        },
        None => {},
    }
    match serve_schema::<Wrapper>(request) {
        Some(schema) => {
            return Served::Reply(schema);
        },
        None => {},
    }
    match serve_action_templates::<Wrapper>(request) {
        Some(templates) => {
            return Served::Reply(templates);
        },
        None => {},
    }
    try_serve_pack_action::<Wrapper>(request, args)
}

/// Whether `args` holds the arguments of the action that `request` names,
/// whatever type the service gives for that action. This holds of every
/// request that names no action.
pub open spec fn arguments_fit<Wrapper: WithActionStruct>(
    request: HttpRequest,
    args: Document,
) -> bool {
    forall|action: &str, found: Option<Type>|
        pack_action_name(request) == Some(action@) && #[trigger] call_ensures(
            Wrapper::with_action_struct,
            (action,),
            found,
        ) && found is Some ==> packed_arguments(found->Some_0@, args) is Some
}

/// Whether `answer` is what is owed once the service was asked for the type of
/// an action's arguments and `found` came back, for a document that holds the
/// arguments: for a type, the packed arguments that `args` holds as that type,
/// as `application/octet-stream`; for no type, no answer.
pub open spec fn answers_action(answer: Option<HttpReply>, found: Option<Type>, args: Document) -> bool {
    match found {
        Some(ty) => {
            &&& packed_arguments(ty@, args) is Some
            &&& answer is Some
            &&& answer->Some_0.is("application/octet-stream"@, packed_arguments(ty@, args)->Some_0)
        },
        None => answer is None,
    }
}

/// Whether `answer` is what is owed to a request to pack an action's
/// arguments, for a document that holds them: no answer to a request that
/// names no action; else what is owed for a type that the service's
/// `with_action_struct` returned for the name.
pub open spec fn answers_pack_action<Wrapper: WithActionStruct>(
    request: HttpRequest,
    args: Document,
    answer: Option<HttpReply>,
) -> bool {
    match pack_action_name(request) {
        Some(name) => exists|action: &str, found: Option<Type>|
            {
                &&& #[trigger] call_ensures(Wrapper::with_action_struct, (action,), found)
                &&& action@ == name
                &&& answers_action(answer, found, args)
            },
        None => answer is None,
    }
}

/// Serves `POST /pack_action/x`, where `x` is an action of the service: the
/// arguments of `x`, given as the JSON document `args` that the request's body
/// holds, packed, as `application/octet-stream`.
///
/// The service's `with_action_struct` is asked for the type of `x`, and the
/// answer is what `pack_action` makes of that type and `args`. There is no
/// answer to any other request, and `with_action_struct` is not called for it;
/// and none for an action that the service does not have. Where the service
/// has the action, `args` must hold its arguments; `try_serve_pack_action`
/// takes every document.
pub fn serve_pack_action<Wrapper: WithActionStruct>(request: &HttpRequest, args: &Json) -> (answer:
    Option<HttpReply>)
    requires
        arguments_fit::<Wrapper>(*request, args@),
    ensures
        answers_pack_action::<Wrapper>(*request, args@, answer),
{
    let served = try_serve_pack_action::<Wrapper>(request, args);
    proof {
        lemma_fit_is_not_bad::<Wrapper>(*request, args@, served);
    }
    match served {
        Served::Reply(reply) => Some(reply),
        _ => None,
    }
}

/// Where the document holds the arguments of the action that a request names,
/// what is owed to the request is a reply or `NotServed`, and the reply, or no
/// answer, is what is owed as an answer.
proof fn lemma_fit_is_not_bad<Wrapper: WithActionStruct>(
    request: HttpRequest,
    args: Document,
    served: Served,
)
    requires
        arguments_fit::<Wrapper>(request, args),
        serves_pack_action::<Wrapper>(request, args, served),
    ensures
        !(served is BadArguments),
        served is Reply ==> answers_pack_action::<Wrapper>(request, args, Some(served->Reply_0)),
        served is NotServed ==> answers_pack_action::<Wrapper>(request, args, None),
{
    if pack_action_name(request) is Some {
        let (action, found) = choose|action: &str, found: Option<Type>|
            {
                &&& #[trigger] call_ensures(Wrapper::with_action_struct, (action,), found)
                &&& action@ == pack_action_name(request)->Some_0
                &&& serves_action(served, found, args)
            };
        if served is Reply {
            assert(answers_action(Some(served->Reply_0), found, args));
        } else {
            assert(answers_action(None, found, args));
        }
    }
}

/// Serves the developer UI of a service: the answer of the first of
/// `serve_simple_index`, `serve_schema`, `serve_action_templates` and
/// `serve_pack_action` that answers, tried in this order, where `args` is the
/// JSON document that the request's body holds; no answer if none of them
/// answers. Handlers after that one are not run.
///
/// Where the request is left to `serve_pack_action` and the service has the
/// action, `args` must hold its arguments; `try_serve_simple_ui` takes every
/// document.
pub fn serve_simple_ui<Wrapper: Reflect + WithActionStruct>(
    request: &HttpRequest,
    args: &Json,
) -> (answer: Option<HttpReply>)
    requires
        asks_for_index(*request) || request.asks("GET"@, "/schema"@) || request.asks(
            "GET"@,
            "/action_templates"@,
        ) || arguments_fit::<Wrapper>(*request, args@),
    ensures
        if asks_for_index(*request) {
            answer is Some && answer->Some_0.is("text/html"@, utf8(SIMPLE_UI@))
        } else if request.asks("GET"@, "/schema"@) {
            answer is Some && holds_schema::<Wrapper>(answer->Some_0)
        } else if request.asks("GET"@, "/action_templates"@) {
            answer is Some && holds_action_templates::<Wrapper>(answer->Some_0)
        } else {
            answers_pack_action::<Wrapper>(*request, args@, answer)
        },
{
    let served = try_serve_simple_ui::<Wrapper>(request, args);
    proof {
        if !asks_for_index(*request) && !request.asks("GET"@, "/schema"@) && !request.asks(
            "GET"@,
            "/action_templates"@,
        ) {
            lemma_fit_is_not_bad::<Wrapper>(*request, args@, served);
        }
    }
    match served {
        Served::Reply(reply) => Some(reply),
        _ => None,
    }
}

/// The text of the page that `async_graphql::http::graphiql_source` makes for
/// a GraphQL endpoint, without an endpoint for subscriptions.
pub uninterp spec fn graphiql_page(endpoint: Seq<char>) -> Seq<char>;

/// Calls `async_graphql::http::graphiql_source` with the given endpoint and no
/// endpoint for subscriptions. That function fills the endpoint into a fixed
/// page, so its result depends on the endpoint alone; the contract gives that
/// result a name and claims nothing more of it.
#[verifier::external_body]
fn graphiql_source(endpoint: &str) -> (page: String)
    ensures
        page@ == graphiql_page(endpoint@),
{
    async_graphql::http::graphiql_source(endpoint, None)
}

/// Serves the GraphiQL page for `GET /graphiql.html`: the page made for the
/// endpoint `/graphql`, as `text/html`. Any other request gets no answer.
pub fn serve_graphiql(request: &HttpRequest) -> (answer: Option<HttpReply>)
    ensures
        answer is Some <==> request.asks("GET"@, "/graphiql.html"@),
        answer is Some ==> answer->Some_0.is(
            "text/html"@,
            utf8(graphiql_page("/graphql"@)),
        ),
{
    if asks(request, "GET", "/graphiql.html") {
        let page = graphiql_source("/graphql");
        Some(reply("text/html", page.as_str().as_bytes_vec()))
    } else {
        None
    }
}

} // verus!
