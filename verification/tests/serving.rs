use psi_fracpack::graphql::{graphql_reply, route_graphql, GraphqlAction};
use psi_fracpack::http::{
    asked_action, asks, holds_arguments, pack_action, page, reply, serve_action_templates,
    serve_graphiql, serve_pack_action, serve_schema, serve_simple_index, serve_simple_ui,
    try_serve_pack_action, try_serve_simple_ui, HttpReply, HttpRequest, Reflect, Served,
    WithActionStruct, SIMPLE_UI,
};
use psi_fracpack::json::{Entry, Json, Number};
use psi_fracpack::schema::{Field, Type};
use psi_fracpack::text::{find_byte, has_prefix, same_bytes, same_text, strip_prefix};
use psi_fracpack::value::Value;

struct Counter;

impl Reflect for Counter {
    fn create_schema() -> Vec<u8> {
        b"{\"actions\":[\"add\",\"move\"]}".to_vec()
    }

    fn generate_action_templates() -> String {
        "{\"add\":{\"amount\":0}}".to_string()
    }
}

fn member(name: &str, ty: Type) -> Field {
    Field { name: name.to_string(), ty }
}

fn point_type() -> Type {
    Type::Struct(vec![member("x", Type::U64), member("y", Type::F64)])
}

fn move_type() -> Type {
    Type::Struct(vec![
        member("a", Type::U64),
        member("b", point_type()),
        member("c", Type::F64),
    ])
}

impl WithActionStruct for Counter {
    fn with_action_struct(action: &str) -> Option<Type> {
        match action {
            "add" => Some(Type::Struct(vec![member("amount", Type::U32)])),
            "move" => Some(move_type()),
            "h\u{e9}" => Some(Type::Struct(vec![])),
            _ => None,
        }
    }
}

fn request(method: &str, target: &str) -> HttpRequest {
    HttpRequest {
        method: method.to_string(),
        target: target.to_string(),
        contentType: String::new(),
        body: Vec::new(),
    }
}

fn whole(n: u64) -> Json {
    Json::Number(Number {
        unsigned: Some(n),
        signed: i64::try_from(n).ok(),
        bits64: (n as f64).to_bits(),
        bits32: (n as f64 as f32).to_bits(),
    })
}

fn negative(n: i64) -> Json {
    Json::Number(Number {
        unsigned: None,
        signed: Some(n),
        bits64: (n as f64).to_bits(),
        bits32: (n as f64 as f32).to_bits(),
    })
}

fn float(x: f64) -> Json {
    Json::Number(Number {
        unsigned: None,
        signed: None,
        bits64: x.to_bits(),
        bits32: (x as f32).to_bits(),
    })
}

fn entry(key: &str, value: Json) -> Entry {
    Entry { key: key.to_string(), value }
}

fn is_html(answer: &Option<HttpReply>, body: &[u8]) -> bool {
    match answer {
        Some(reply) => {
            reply.contentType == "text/html" && reply.body == body && reply.headers.is_empty()
        }
        None => false,
    }
}

#[test]
fn index_is_served_for_the_root_and_for_index_html() {
    assert!(is_html(&serve_simple_index(&request("GET", "/")), SIMPLE_UI.as_bytes()));
    assert!(is_html(&serve_simple_index(&request("GET", "/index.html")), SIMPLE_UI.as_bytes()));
    assert!(serve_simple_index(&request("POST", "/")).is_none());
    assert!(serve_simple_index(&request("GET", "/index.htm")).is_none());
    assert!(serve_simple_index(&request("GET", "")).is_none());
    assert!(serve_simple_index(&request("get", "/")).is_none());
}

#[test]
fn index_page_is_the_simple_ui() {
    assert_eq!(
        SIMPLE_UI,
        "<html><div id=\"root\" class=\"ui container\"></div><script src=\"/common/SimpleUI.mjs\" type=\"module\"></script></html>"
    );
}

#[test]
fn schema_is_served_for_get_schema() {
    assert!(is_html(
        &serve_schema::<Counter>(&request("GET", "/schema")),
        b"{\"actions\":[\"add\",\"move\"]}"
    ));
    assert!(serve_schema::<Counter>(&request("POST", "/schema")).is_none());
    assert!(serve_schema::<Counter>(&request("GET", "/schema/")).is_none());
}

#[test]
fn action_templates_are_served_for_get_action_templates() {
    assert!(is_html(
        &serve_action_templates::<Counter>(&request("GET", "/action_templates")),
        b"{\"add\":{\"amount\":0}}"
    ));
    assert!(serve_action_templates::<Counter>(&request("GET", "/schema")).is_none());
    assert!(serve_action_templates::<Counter>(&request("PUT", "/action_templates")).is_none());
}

#[test]
fn arguments_are_packed_by_field_name() {
    // The entries stand in another order than the fields, with one to spare.
    let args = Json::Object(vec![
        entry("c", float(4.0)),
        entry("unused", whole(9)),
        entry("b", Json::Object(vec![entry("y", float(3.0)), entry("x", whole(2))])),
        entry("a", whole(1)),
    ]);
    let answer = serve_pack_action::<Counter>(&request("POST", "/pack_action/move"), &args)
        .expect("the arguments were not packed");
    assert_eq!(answer.contentType, "application/octet-stream");
    assert!(answer.headers.is_empty());
    let expected = Value::Struct(vec![
        Value::U64(1),
        Value::Struct(vec![Value::U64(2), Value::F64(3.0f64.to_bits())]),
        Value::F64(4.0f64.to_bits()),
    ])
    .packed();
    assert_eq!(answer.body, expected);
}

#[test]
fn pack_action_answers_only_known_actions() {
    let args = Json::Object(vec![entry("amount", whole(5))]);
    let answer = serve_pack_action::<Counter>(&request("POST", "/pack_action/add"), &args)
        .expect("the arguments were not packed");
    assert_eq!(answer.body, vec![6, 0, 5, 0, 0, 0]);
    assert!(serve_pack_action::<Counter>(&request("GET", "/pack_action/add"), &args).is_none());
    assert!(serve_pack_action::<Counter>(&request("POST", "/pack_action/sub"), &args).is_none());
    assert!(serve_pack_action::<Counter>(&request("POST", "/pack_action"), &args).is_none());
    assert!(serve_pack_action::<Counter>(&request("POST", "/pack_actions/add"), &args).is_none());
    // The name is what follows the prefix, whatever letters it holds.
    let empty = serve_pack_action::<Counter>(&request("POST", "/pack_action/h\u{e9}"), &args)
        .expect("the arguments were not packed");
    assert_eq!(empty.body, vec![2, 0]);
}

#[test]
fn bad_arguments_are_told_from_unknown_actions() {
    let add = request("POST", "/pack_action/add");
    let args = Json::Object(vec![entry("amount", whole(5))]);
    match try_serve_pack_action::<Counter>(&add, &args) {
        Served::Reply(answer) => {
            assert_eq!(answer.contentType, "application/octet-stream");
            assert_eq!(answer.body, vec![6, 0, 5, 0, 0, 0]);
            assert!(answer.headers.is_empty());
        }
        _ => panic!("the arguments were not packed"),
    }
    // A number too large for the field, a missing field, a document that is no object.
    let large = Json::Object(vec![entry("amount", whole(1 << 32))]);
    assert!(matches!(try_serve_pack_action::<Counter>(&add, &large), Served::BadArguments));
    let missing = Json::Object(vec![entry("count", whole(5))]);
    assert!(matches!(try_serve_pack_action::<Counter>(&add, &missing), Served::BadArguments));
    assert!(matches!(try_serve_pack_action::<Counter>(&add, &Json::Other), Served::BadArguments));
    assert!(matches!(try_serve_pack_action::<Counter>(&add, &whole(5)), Served::BadArguments));
    // An action that the service does not have, and requests that name none.
    for other in [
        request("POST", "/pack_action/sub"),
        request("POST", "/pack_action/"),
        request("POST", "/pack_action"),
        request("POST", "/pack_actions/add"),
        request("GET", "/pack_action/add"),
    ] {
        assert!(matches!(try_serve_pack_action::<Counter>(&other, &large), Served::NotServed));
        assert!(matches!(try_serve_simple_ui::<Counter>(&other, &large), Served::NotServed));
    }
    assert!(matches!(try_serve_simple_ui::<Counter>(&add, &large), Served::BadArguments));
    assert!(matches!(try_serve_simple_ui::<Counter>(&add, &args), Served::Reply(_)));
    // The pages are served whatever the document holds.
    match try_serve_simple_ui::<Counter>(&request("GET", "/schema"), &large) {
        Served::Reply(answer) => assert_eq!(answer.body, b"{\"actions\":[\"add\",\"move\"]}"),
        _ => panic!("the schema was not served"),
    }
    match try_serve_simple_ui::<Counter>(&request("GET", "/action_templates"), &large) {
        Served::Reply(answer) => assert_eq!(answer.body, b"{\"add\":{\"amount\":0}}"),
        _ => panic!("the templates were not served"),
    }
    match try_serve_simple_ui::<Counter>(&request("GET", "/"), &large) {
        Served::Reply(answer) => assert_eq!(answer.body, SIMPLE_UI.as_bytes()),
        _ => panic!("the index was not served"),
    }
}

#[test]
fn asked_action_is_what_follows_the_prefix() {
    assert_eq!(asked_action(&request("POST", "/pack_action/add")), Some("add"));
    assert_eq!(asked_action(&request("POST", "/pack_action/")), Some(""));
    assert_eq!(asked_action(&request("POST", "/pack_action/a/b?c")), Some("a/b?c"));
    assert_eq!(asked_action(&request("POST", "/pack_action/h\u{e9}")), Some("h\u{e9}"));
    assert_eq!(asked_action(&request("POST", "/pack_action")), None);
    assert_eq!(asked_action(&request("POST", "pack_action/add")), None);
    assert_eq!(asked_action(&request("GET", "/pack_action/add")), None);
    assert_eq!(asked_action(&request("post", "/pack_action/add")), None);
}

#[test]
fn documents_that_hold_arguments() {
    let ty = point_type();
    assert!(holds_arguments(&ty, &Json::Object(vec![entry("x", whole(7)), entry("y", float(2.5))])));
    assert!(!holds_arguments(&ty, &Json::Object(vec![entry("x", whole(7))])));
    assert!(!holds_arguments(&ty, &whole(7)));
    assert!(holds_arguments(&Type::U8, &whole(7)));
    assert!(!holds_arguments(&Type::U8, &whole(256)));
}

#[test]
fn pack_action_packs_a_document_as_a_type() {
    let answer = pack_action(
        &point_type(),
        &Json::Object(vec![entry("x", whole(7)), entry("y", float(2.5))]),
    );
    let mut expected: Vec<u8> = vec![0x12, 0x00];
    expected.extend_from_slice(&7u64.to_le_bytes());
    expected.extend_from_slice(&2.5f64.to_le_bytes());
    assert_eq!(answer.body, expected);
    assert_eq!(answer.contentType, "application/octet-stream");
    assert!(answer.headers.is_empty());
}

#[test]
fn simple_ui_serves_each_of_its_pages() {
    let none = Json::Other;
    assert!(is_html(&serve_simple_ui::<Counter>(&request("GET", "/"), &none), SIMPLE_UI.as_bytes()));
    assert!(is_html(
        &serve_simple_ui::<Counter>(&request("GET", "/index.html"), &none),
        SIMPLE_UI.as_bytes()
    ));
    assert!(is_html(
        &serve_simple_ui::<Counter>(&request("GET", "/schema"), &none),
        b"{\"actions\":[\"add\",\"move\"]}"
    ));
    assert!(is_html(
        &serve_simple_ui::<Counter>(&request("GET", "/action_templates"), &none),
        b"{\"add\":{\"amount\":0}}"
    ));
    let args = Json::Object(vec![entry("amount", whole(5))]);
    let packed = serve_simple_ui::<Counter>(&request("POST", "/pack_action/add"), &args)
        .expect("the arguments were not packed");
    assert_eq!(packed.contentType, "application/octet-stream");
    assert_eq!(packed.body, vec![6, 0, 5, 0, 0, 0]);
    assert!(serve_simple_ui::<Counter>(&request("GET", "/other"), &args).is_none());
    assert!(serve_simple_ui::<Counter>(&request("POST", "/schema"), &none).is_none());
}

#[test]
fn graphiql_page_is_served_for_get_graphiql_html() {
    let answer = serve_graphiql(&request("GET", "/graphiql.html")).expect("no page was served");
    assert_eq!(answer.contentType, "text/html");
    assert!(answer.headers.is_empty());
    let page = String::from_utf8(answer.body).expect("the page is not text");
    assert_ne!(page, "/graphql");
    assert!(page.contains("fetch('/graphql'"));
    assert!(page.contains("GraphiQL"));
    assert!(serve_graphiql(&request("POST", "/graphiql.html")).is_none());
    assert!(serve_graphiql(&request("GET", "/graphiql")).is_none());
}

#[test]
fn graphql_requests_are_told_apart() {
    assert_eq!(route_graphql(&request("GET", "/graphql")), GraphqlAction::SendSchema);
    assert_eq!(route_graphql(&request("POST", "/graphql")), GraphqlAction::RunBody);
    assert_eq!(route_graphql(&request("PUT", "/graphql")), GraphqlAction::NotServed);
    assert_eq!(route_graphql(&request("GET", "/graphq")), GraphqlAction::NotServed);
    assert_eq!(route_graphql(&request("GET", "/graphql/")), GraphqlAction::NotServed);
    assert_eq!(route_graphql(&request("GET", "")), GraphqlAction::NotServed);
    // What follows the first `?` must itself begin with `?query=` to be run as a query.
    assert_eq!(route_graphql(&request("GET", "/graphql?query={a}")), GraphqlAction::SendSchema);
    assert_eq!(route_graphql(&request("POST", "/graphql?query={a}")), GraphqlAction::RunBody);
    assert_eq!(
        route_graphql(&request("GET", "/graphql??query={a}")),
        GraphqlAction::RunQuery { from: 16 }
    );
    assert_eq!(
        route_graphql(&request("POST", "/graphql??query=")),
        GraphqlAction::RunQuery { from: 16 }
    );
    assert_eq!(route_graphql(&request("GET", "/other??query={a}")), GraphqlAction::NotServed);
    assert_eq!(route_graphql(&request("GET", "/graphql?")), GraphqlAction::SendSchema);
    assert_eq!(&"/graphql??query={a}"[16..], "{a}");
}

#[test]
fn graphql_answers_have_the_content_type_of_what_was_asked() {
    assert!(graphql_reply(GraphqlAction::NotServed, vec![1]).is_none());
    let schema = graphql_reply(GraphqlAction::SendSchema, b"type Query".to_vec())
        .expect("the schema was not sent");
    assert_eq!(schema.contentType, "text");
    assert_eq!(schema.body, b"type Query".to_vec());
    assert!(schema.headers.is_empty());
    let query = graphql_reply(GraphqlAction::RunQuery { from: 16 }, b"{}".to_vec())
        .expect("the result was not sent");
    assert_eq!(query.contentType, "application/json");
    assert_eq!(query.body, b"{}".to_vec());
    let body = graphql_reply(GraphqlAction::RunBody, b"[]".to_vec())
        .expect("the result was not sent");
    assert_eq!(body.contentType, "application/json");
    assert_eq!(body.body, b"[]".to_vec());
    assert!(body.headers.is_empty());
}

#[test]
fn replies_and_requests() {
    let answer = reply("text/plain", vec![1, 2, 3]);
    assert_eq!(answer.contentType, "text/plain");
    assert_eq!(answer.body, vec![1, 2, 3]);
    assert!(answer.headers.is_empty());
    let text = page("h\u{e9}");
    assert_eq!(text.contentType, "text/html");
    assert_eq!(text.body, vec![b'h', 0xC3, 0xA9]);
    assert!(text.headers.is_empty());
    assert!(asks(&request("GET", "/x"), "GET", "/x"));
    assert!(!asks(&request("GET", "/x"), "GET", "/y"));
    assert!(!asks(&request("GET", "/x"), "POST", "/x"));
}

#[test]
fn values_from_documents() {
    let ty = point_type();
    // The first of two entries under one key counts.
    let doubled = Json::Object(vec![
        entry("x", whole(1)),
        entry("y", float(0.5)),
        entry("x", whole(2)),
    ]);
    match ty.from_json(&doubled) {
        Some(Value::Struct(fields)) => {
            assert!(matches!(fields[0], Value::U64(1)));
            assert!(matches!(fields[1], Value::F64(bits) if f64::from_bits(bits) == 0.5));
        }
        _ => panic!("the document was refused"),
    }
    // A float field takes a whole number as the nearest float.
    match Type::F64.from_json(&whole(3)) {
        Some(Value::F64(bits)) => assert_eq!(f64::from_bits(bits), 3.0),
        _ => panic!("the number was refused"),
    }
    match Type::F32.from_json(&float(1.5)) {
        Some(Value::F32(bits)) => assert_eq!(f32::from_bits(bits), 1.5),
        _ => panic!("the number was refused"),
    }
    // An integer field takes no number that is not whole, and none out of its range.
    assert!(Type::U64.from_json(&float(1.5)).is_none());
    assert!(matches!(Type::U8.from_json(&whole(255)), Some(Value::U8(255))));
    assert!(Type::U8.from_json(&whole(256)).is_none());
    assert!(matches!(Type::U16.from_json(&whole(65535)), Some(Value::U16(65535))));
    assert!(Type::U16.from_json(&whole(65536)).is_none());
    assert!(matches!(Type::U32.from_json(&whole(7)), Some(Value::U32(7))));
    assert!(matches!(Type::U64.from_json(&whole(u64::MAX)), Some(Value::U64(u64::MAX))));
    // A signed field takes whole numbers of either sign within its range.
    assert!(matches!(Type::I8.from_json(&negative(-128)), Some(Value::I8(-128))));
    assert!(Type::I8.from_json(&negative(-129)).is_none());
    assert!(matches!(Type::I8.from_json(&whole(127)), Some(Value::I8(127))));
    assert!(Type::I8.from_json(&whole(128)).is_none());
    assert!(matches!(Type::I16.from_json(&negative(-32768)), Some(Value::I16(-32768))));
    assert!(Type::I16.from_json(&whole(32768)).is_none());
    assert!(matches!(Type::I32.from_json(&negative(-5)), Some(Value::I32(-5))));
    assert!(Type::I32.from_json(&whole(1 << 31)).is_none());
    assert!(matches!(Type::I64.from_json(&negative(i64::MIN)), Some(Value::I64(i64::MIN))));
    assert!(Type::I64.from_json(&whole(u64::MAX)).is_none());
    assert!(Type::I64.from_json(&float(0.5)).is_none());
    // An unsigned field takes no negative number.
    assert!(Type::U64.from_json(&negative(-1)).is_none());
    assert!(Type::U8.from_json(&negative(-1)).is_none());
    // A scalar is no object, and an object no scalar.
    assert!(Type::U64.from_json(&doubled).is_none());
    assert!(ty.from_json(&whole(1)).is_none());
    assert!(ty.from_json(&Json::Other).is_none());
    assert!(Type::U64.from_json(&Json::Other).is_none());
    // The empty record takes any object.
    assert!(matches!(
        Type::Struct(vec![]).from_json(&doubled),
        Some(Value::Struct(fields)) if fields.is_empty()
    ));
}

#[test]
fn texts_and_byte_strings() {
    assert!(same_text("GET", "GET"));
    assert!(!same_text("GET", "GET "));
    assert!(!same_text("GET", "get"));
    assert!(same_text("", ""));
    assert!(same_text("h\u{e9}llo", "h\u{e9}llo"));
    assert!(same_bytes(b"abc", b"abc"));
    assert!(!same_bytes(b"abc", b"abd"));
    assert!(!same_bytes(b"abc", b"ab"));
    assert!(has_prefix(b"/pack_action/x", b"/pack_action/"));
    assert!(has_prefix(b"abc", b""));
    assert!(has_prefix(b"abc", b"abc"));
    assert!(!has_prefix(b"ab", b"abc"));
    assert!(!has_prefix(b"xbc", b"ab"));
    assert_eq!(find_byte(b"a?b?c", b'?'), Some(1));
    assert_eq!(find_byte(b"abc", b'?'), None);
    assert_eq!(find_byte(b"", b'?'), None);
    assert_eq!(find_byte(b"?", b'?'), Some(0));
    assert_eq!(strip_prefix("/pack_action/x", "/pack_action/"), Some("x"));
    assert_eq!(strip_prefix("abc", ""), Some("abc"));
    assert_eq!(strip_prefix("abc", "abc"), Some(""));
    assert_eq!(strip_prefix("ab", "abc"), None);
    assert_eq!(strip_prefix("xbc", "ab"), None);
    assert_eq!(strip_prefix("\u{e9}t\u{e9}", "\u{e9}"), Some("t\u{e9}"));
    assert_eq!(strip_prefix("\u{e9}t\u{e9}", "e"), None);
    assert_eq!(strip_prefix("", ""), Some(""));
}
