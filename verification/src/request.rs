//! Queries out of the bodies of HTTP requests.
use vstd::prelude::*;

use graphql_parser::query::{parse_query, Document, ParseError};
use hyper::Chunk;

use crate::graphql::{is_parseable, parseable, parsed_query};
use crate::json::{
    is_last_member, json_of_bytes, law_members_are_what_is_written, Json, JsonValue,
};
use crate::query::{
    GraphQLServerError, Query, QueryError, QueryVariables, QueryView, Schema, ServerErrorView,
};

verus! {

/// A piece of a message body, of which only its bytes are read.
#[verifier::external_type_specification]
#[verifier::external_body]
pub struct ExChunk(Chunk);

/// The bytes that a `hyper::Chunk` holds.
pub uninterp spec fn chunk_bytes(chunk: Chunk) -> Seq<u8>;

/// Calls `as_ref` of `hyper::Chunk`, which lends the bytes of the chunk.
#[verifier::external_body]
fn bytes_of(chunk: &Chunk) -> (bytes: &[u8])
    ensures
        bytes@ == chunk_bytes(*chunk),
{
    chunk.as_ref()
}

/// The text of the query in a request, or what the client is told instead.
pub open spec fn query_text_of(json: Json) -> Result<Seq<char>, Seq<char>> {
    if !(json is Object) {
        Err("Request data is not an object"@)
    } else if !json.members().contains_key("query"@) {
        Err("The \"query\" field missing in request data"@)
    } else {
        match json.members()["query"@] {
            Json::Text(text) => Ok(text),
            _ => Err("The\"query\" field is not a string"@),
        }
    }
}

/// The variables in a request, or what the client is told instead.
pub open spec fn variables_of(json: Json) -> Result<Option<Map<Seq<char>, Json>>, Seq<char>> {
    if !json.members().contains_key("variables"@) {
        Ok(None)
    } else {
        match json.members()["variables"@] {
            Json::Null => Ok(None),
            Json::Object(_) => Ok(Some(json.members()["variables"@].members())),
            _ => Err("Invalid query variables provided"@),
        }
    }
}

/// What becomes of a request whose query text has been parsed.
pub open spec fn completed(
    json: Json,
    parsed: Result<Document, ParseError>,
    schema: Schema,
) -> Result<QueryView, ServerErrorView> {
    match parsed {
        Err(error) => Err(ServerErrorView::QueryError(QueryError::ParseError(error))),
        Ok(document) => match variables_of(json) {
            Err(message) => Err(ServerErrorView::ClientError(message)),
            Ok(variables) => Ok(QueryView { document, variables, schema }),
        },
    }
}

/// What becomes of a request.
pub open spec fn decoded(json: Result<Json, Seq<char>>, schema: Schema) -> Result<
    QueryView,
    ServerErrorView,
> {
    match json {
        Err(message) => Err(ServerErrorView::ClientError(message)),
        Ok(json) => match query_text_of(json) {
            Err(message) => Err(ServerErrorView::ClientError(message)),
            Ok(text) => completed(json, parsed_query(text), schema),
        },
    }
}

/// The query text of a request, if there is any, is one that the parser gets through.
pub open spec fn has_parseable_query(json: Result<Json, Seq<char>>) -> bool {
    match json {
        Ok(json) => match query_text_of(json) {
            Ok(text) => parseable(text),
            Err(_) => true,
        },
        Err(_) => true,
    }
}

/// The outcome of a request by the views of its parts.
pub open spec fn outcome(result: Result<Query, GraphQLServerError>) -> Result<
    QueryView,
    ServerErrorView,
> {
    match result {
        Ok(query) => Ok(query@),
        Err(error) => Err(error@),
    }
}

fn client_error(message: &str) -> (error: GraphQLServerError)
    ensures
        error@ == ServerErrorView::ClientError(message@),
{
    GraphQLServerError::ClientError(message.to_owned())
}

/// Reads the query text out of the data of a request.
pub fn query_text(json: &JsonValue) -> (result: Result<String, GraphQLServerError>)
    ensures
        match result {
            Ok(text) => query_text_of(json@) == Ok::<Seq<char>, Seq<char>>(text@),
            Err(error) => query_text_of(json@) is Err && error@ == ServerErrorView::ClientError(
                query_text_of(json@)->Err_0,
            ),
        },
{
    // Ensure the JSON data is an object
    match json {
        JsonValue::Object(_) => {},
        _ => {
            return Err(client_error("Request data is not an object"));
        },
    }

    // Ensure the JSON data has a "query" field, and that it is a string
    match json.member("query") {
        None => Err(client_error("The \"query\" field missing in request data")),
        Some(JsonValue::Text(text)) => Ok(text.clone()),
        Some(_) => Err(client_error("The\"query\" field is not a string")),
    }
}

/// Reads the variables, if any, out of the data of a request.
pub fn query_variables(json: &JsonValue) -> (result: Result<
    Option<QueryVariables>,
    GraphQLServerError,
>)
    ensures
        match result {
            Ok(Some(variables)) => variables_of(json@) == Ok::<_, Seq<char>>(Some(variables@)),
            Ok(None) => variables_of(json@) == Ok::<Option<Map<Seq<char>, Json>>, Seq<char>>(None),
            Err(error) => variables_of(json@) is Err && error@ == ServerErrorView::ClientError(
                variables_of(json@)->Err_0,
            ),
        },
{
    match json.member("variables") {
        None => Ok(None),
        Some(JsonValue::Null) => Ok(None),
        Some(value) => match QueryVariables::from_json(value) {
            Some(variables) => Ok(Some(variables)),
            None => Err(client_error("Invalid query variables provided")),
        },
    }
}

/// Completes a request whose query text has been parsed.
pub fn complete(json: &JsonValue, parsed: Result<Document, ParseError>, schema: Schema) -> (result:
    Result<Query, GraphQLServerError>)
    ensures
        outcome(result) == completed(json@, parsed, schema),
{
    match parsed {
        Err(error) => Err(GraphQLServerError::from(QueryError::from(error))),
        Ok(document) => match query_variables(json) {
            Err(error) => Err(error),
            Ok(variables) => Ok(Query { document, variables, schema }),
        },
    }
}

/// A request whose query text has yet to be parsed.
pub struct HeldRequest {
    /// The data of the request.
    pub json: JsonValue,
    /// Its query text.
    pub text: String,
    /// The schema that the query is meant for.
    pub schema: Schema,
}

/// A query to be parsed from an HTTP request.
pub struct GraphQLRequest {
    body: Chunk,
    schema: Schema,
}

impl GraphQLRequest {
    /// The bytes of the request.
    pub closed spec fn body(self) -> Seq<u8> {
        chunk_bytes(self.body)
    }

    /// The schema that the query is meant for.
    pub closed spec fn schema(self) -> Schema {
        self.schema
    }

    /// Creates a request from the body of an HTTP request and a schema.
    pub fn new(body: Chunk, schema: Schema) -> (request: Self)
        ensures
            request.body() == chunk_bytes(body),
            request.schema() == schema,
    {
        GraphQLRequest { body, schema }
    }

    /// Decodes the request. It is always ready.
    pub fn poll(&mut self) -> (result: Result<Query, GraphQLServerError>)
        requires
            has_parseable_query(json_of_bytes(old(self).body())),
        ensures
            *final(self) == *old(self),
            outcome(result) == decoded(json_of_bytes(old(self).body()), old(self).schema()),
    {
        let schema = self.schema.clone();

        // Parse request body as JSON
        let json = match JsonValue::parse(bytes_of(&self.body)) {
            Ok(json) => json,
            Err(message) => {
                return Err(GraphQLServerError::ClientError(message));
            },
        };

        // Parse the "query" field of the JSON body
        let text = match query_text(&json) {
            Ok(text) => text,
            Err(error) => {
                return Err(error);
            },
        };
        let parsed = parse_query(text.as_str());

        complete(&json, parsed, schema)
    }

    /// Decodes the request, unless its query text is one that the parser may not get through. Such
    /// a request is handed out as far as it has been decoded, for `complete` to go on with.
    pub fn try_poll(&mut self) -> (result: Result<Result<Query, GraphQLServerError>, HeldRequest>)
        ensures
            *final(self) == *old(self),
            match result {
                Ok(result) => has_parseable_query(json_of_bytes(old(self).body())) && outcome(
                    result,
                ) == decoded(json_of_bytes(old(self).body()), old(self).schema()),
                Err(held) => {
                    &&& !has_parseable_query(json_of_bytes(old(self).body()))
                    &&& json_of_bytes(old(self).body()) == Ok::<Json, Seq<char>>(held.json@)
                    &&& query_text_of(held.json@) == Ok::<Seq<char>, Seq<char>>(held.text@)
                    &&& held.schema == old(self).schema()
                },
            },
    {
        if let Ok(json) = JsonValue::parse(bytes_of(&self.body)) {
            if let Ok(text) = query_text(&json) {
                if !is_parseable(text.as_str()) {
                    return Err(HeldRequest { json, text, schema: self.schema.clone() });
                }
            }
        }
        Ok(self.poll())
    }
}

/// A request is decoded by completing it with what the parser makes of its query text, whatever
/// that text is.
pub proof fn law_completing_decodes(json: Json, text: Seq<char>, schema: Schema)
    requires
        query_text_of(json) == Ok::<Seq<char>, Seq<char>>(text),
    ensures
        completed(json, parsed_query(text), schema) == decoded(Ok(json), schema),
{
}

/// A request is accepted exactly if it is an object with a query text that parses, and with
/// variables that are missing, null or an object.
pub proof fn law_accepted_requests(json: Result<Json, Seq<char>>, schema: Schema)
    ensures
        decoded(json, schema) is Ok <==> {
            &&& json is Ok
            &&& json->Ok_0 is Object
            &&& json->Ok_0.members().contains_key("query"@)
            &&& json->Ok_0.members()["query"@] is Text
            &&& parsed_query(json->Ok_0.members()["query"@]->Text_0) is Ok
            &&& json->Ok_0.members().contains_key("variables"@) ==> {
                ||| json->Ok_0.members()["variables"@] is Null
                ||| json->Ok_0.members()["variables"@] is Object
            }
        },
        decoded(json, schema) is Ok ==> decoded(json, schema)->Ok_0.schema == schema,
{
}

/// Null variables are no variables: a request is treated as it would be without them.
pub proof fn law_null_variables_are_none(with_null: Json, without: Json, schema: Schema)
    requires
        with_null is Object,
        without is Object,
        with_null.members() == without.members().insert("variables"@, Json::Null),
        !without.members().contains_key("variables"@),
    ensures
        decoded(Ok(with_null), schema) == decoded(Ok(without), schema),
        decoded(Ok(without), schema) is Ok ==> decoded(Ok(without), schema)->Ok_0.variables is None,
{
    reveal_strlit("query");
    reveal_strlit("variables");
    assert("query"@.len() != "variables"@.len());
}

/// Fields other than the query and the variables are ignored.
pub proof fn law_other_fields_are_ignored(a: Json, b: Json, schema: Schema)
    requires
        a is Object,
        b is Object,
        a.members().contains_key("query"@) == b.members().contains_key("query"@),
        a.members()["query"@] == b.members()["query"@],
        a.members().contains_key("variables"@) == b.members().contains_key("variables"@),
        a.members()["variables"@] == b.members()["variables"@],
    ensures
        decoded(Ok(a), schema) == decoded(Ok(b), schema),
{
}

/// The query is judged before the variables: where its text does not parse, that is what the
/// client learns, whatever the variables are.
pub proof fn law_broken_queries_are_reported(json: Json, schema: Schema)
    requires
        query_text_of(json) is Ok,
        parsed_query(query_text_of(json)->Ok_0) is Err,
    ensures
        decoded(Ok(json), schema) == Err::<QueryView, ServerErrorView>(
            ServerErrorView::QueryError(
                QueryError::ParseError(parsed_query(query_text_of(json)->Ok_0)->Err_0),
            ),
        ),
{
}

/// The query text is the text of the last member "query" of the request, and each way in which
/// there is none has a message of its own.
pub proof fn law_query_text_is_the_member(json: Json, i: int)
    ensures
        !(json is Object) ==> query_text_of(json) == Err::<Seq<char>, Seq<char>>(
            "Request data is not an object"@,
        ),
        json is Object && (forall|j: int|
            0 <= j < json->Object_0.len() ==> (#[trigger] json->Object_0[j]).0 != "query"@)
            ==> query_text_of(json) == Err::<Seq<char>, Seq<char>>(
            "The \"query\" field missing in request data"@,
        ),
        json is Object && is_last_member(json->Object_0, i, "query"@) ==> query_text_of(json) == (
        match json->Object_0[i].1 {
            Json::Text(text) => Ok::<Seq<char>, Seq<char>>(text),
            _ => Err::<Seq<char>, Seq<char>>("The\"query\" field is not a string"@),
        }),
{
    law_members_are_what_is_written(json, "query"@);
}

/// The variables are exactly the members of the object that is the last member "variables" of the
/// request: the same names, each with its value. There are none where that member is missing or
/// null, and any other value of it is refused.
pub proof fn law_variables_are_the_members(json: Json, i: int, name: Seq<char>)
    requires
        json is Object,
    ensures
        (forall|j: int|
            0 <= j < json->Object_0.len() ==> (#[trigger] json->Object_0[j]).0 != "variables"@)
            ==> variables_of(json) == Ok::<Option<Map<Seq<char>, Json>>, Seq<char>>(None),
        is_last_member(json->Object_0, i, "variables"@) ==> match json->Object_0[i].1 {
            Json::Null => variables_of(json) == Ok::<Option<Map<Seq<char>, Json>>, Seq<char>>(None),
            Json::Object(variables) => {
                &&& variables_of(json) is Ok
                &&& variables_of(json)->Ok_0 is Some
                &&& variables_of(json)->Ok_0->0.contains_key(name) <==> exists|k: int|
                    0 <= k < variables.len() && (#[trigger] variables[k]).0 == name
                &&& forall|k: int| #[trigger]
                    is_last_member(variables, k, name) ==> variables_of(json)->Ok_0->0[name]
                        == variables[k].1
            },
            _ => variables_of(json) == Err::<Option<Map<Seq<char>, Json>>, Seq<char>>(
                "Invalid query variables provided"@,
            ),
        },
{
    law_members_are_what_is_written(json, "variables"@);
    if is_last_member(json->Object_0, i, "variables"@) {
        law_members_are_what_is_written(json->Object_0[i].1, name);
    }
}

/// Where a request is accepted, the query is made of the document that the parser makes of the
/// query text, of the given schema, and of exactly the variables that the request holds.
pub proof fn law_accepted_queries_hold_the_request(
    result: Result<Query, GraphQLServerError>,
    json: Json,
    schema: Schema,
    i: int,
    v: int,
    name: Seq<char>,
)
    requires
        outcome(result) == decoded(Ok(json), schema),
        result is Ok,
    ensures
        json is Object,
        result->Ok_0.schema == schema,
        is_last_member(json->Object_0, i, "query"@) ==> {
            &&& json->Object_0[i].1 is Text
            &&& parsed_query(json->Object_0[i].1->Text_0) == Ok::<Document, ParseError>(
                result->Ok_0.document,
            )
        },
        (forall|j: int|
            0 <= j < json->Object_0.len() ==> (#[trigger] json->Object_0[j]).0 != "variables"@)
            ==> result->Ok_0.variables is None,
        is_last_member(json->Object_0, v, "variables"@) ==> match json->Object_0[v].1 {
            Json::Null => result->Ok_0.variables is None,
            Json::Object(variables) => {
                &&& result->Ok_0.variables is Some
                &&& result->Ok_0.variables->0@.contains_key(name) <==> exists|k: int|
                    0 <= k < variables.len() && (#[trigger] variables[k]).0 == name
                &&& forall|k: int| #[trigger]
                    is_last_member(variables, k, name) ==> result->Ok_0.variables->0@[name]
                        == variables[k].1
            },
            _ => false,
        },
{
    law_query_text_is_the_member(json, i);
    law_variables_are_the_members(json, v, name);
}

/// A request is completed with whatever the parser has made of its query text: a fault is answered
/// with that fault, and a document becomes the query, with the variables that the request holds.
pub proof fn law_requests_are_completed_with_what_was_parsed(
    result: Result<Query, GraphQLServerError>,
    json: Json,
    parsed: Result<Document, ParseError>,
    schema: Schema,
    v: int,
    name: Seq<char>,
)
    requires
        outcome(result) == completed(json, parsed, schema),
        json is Object,
    ensures
        parsed matches Err(fault) ==> {
            &&& result matches Err(GraphQLServerError::QueryError(cause))
            &&& cause == QueryError::ParseError(fault)
        },
        parsed is Ok && result is Ok ==> result->Ok_0.document == parsed->Ok_0
            && result->Ok_0.schema == schema,
        parsed is Ok && (forall|j: int|
            0 <= j < json->Object_0.len() ==> (#[trigger] json->Object_0[j]).0 != "variables"@)
            ==> result is Ok && result->Ok_0.variables is None,
        parsed is Ok && is_last_member(json->Object_0, v, "variables"@)
            ==> match json->Object_0[v].1 {
            Json::Null => result is Ok && result->Ok_0.variables is None,
            Json::Object(variables) => {
                &&& result is Ok
                &&& result->Ok_0.variables is Some
                &&& result->Ok_0.variables->0@.contains_key(name) <==> exists|k: int|
                    0 <= k < variables.len() && (#[trigger] variables[k]).0 == name
                &&& forall|k: int| #[trigger]
                    is_last_member(variables, k, name) ==> result->Ok_0.variables->0@[name]
                        == variables[k].1
            },
            _ => {
                &&& result matches Err(GraphQLServerError::ClientError(message))
                &&& message@ == "Invalid query variables provided"@
            },
        },
{
    law_variables_are_the_members(json, v, name);
}

/// A request is refused with what comes first: that it is no JSON, no object, without a query or
/// with one that is no text, that its query text does not parse, or that its variables are neither
/// null nor an object.
pub proof fn law_refusals_say_what_comes_first(
    result: Result<Query, GraphQLServerError>,
    json: Result<Json, Seq<char>>,
    schema: Schema,
    i: int,
    v: int,
)
    requires
        outcome(result) == decoded(json, schema),
    ensures
        json is Err ==> {
            &&& result matches Err(GraphQLServerError::ClientError(message))
            &&& message@ == json->Err_0
        },
        json is Ok && !(json->Ok_0 is Object) ==> {
            &&& result matches Err(GraphQLServerError::ClientError(message))
            &&& message@ == "Request data is not an object"@
        },
        json is Ok && json->Ok_0 is Object && (forall|j: int|
            0 <= j < json->Ok_0->Object_0.len() ==> (#[trigger] json->Ok_0->Object_0[j]).0
                != "query"@) ==> {
            &&& result matches Err(GraphQLServerError::ClientError(message))
            &&& message@ == "The \"query\" field missing in request data"@
        },
        json is Ok && json->Ok_0 is Object && is_last_member(json->Ok_0->Object_0, i, "query"@)
            ==> match json->Ok_0->Object_0[i].1 {
            Json::Text(text) => match parsed_query(text) {
                Err(fault) => {
                    &&& result matches Err(GraphQLServerError::QueryError(cause))
                    &&& cause == QueryError::ParseError(fault)
                },
                Ok(_) => is_last_member(json->Ok_0->Object_0, v, "variables"@)
                    && !(json->Ok_0->Object_0[v].1 is Null) && !(json->Ok_0->Object_0[v].1 is Object)
                    ==> {
                    &&& result matches Err(GraphQLServerError::ClientError(message))
                    &&& message@ == "Invalid query variables provided"@
                },
            },
            _ => {
                &&& result matches Err(GraphQLServerError::ClientError(message))
                &&& message@ == "The\"query\" field is not a string"@
            },
        },
{
    if let Ok(json) = json {
        law_query_text_is_the_member(json, i);
        if json is Object {
            law_variables_are_the_members(json, v, Seq::empty());
        }
    }
}

/// A request with a query text that parses is accepted, unless its variables are neither missing,
/// null nor an object.
pub proof fn law_sound_requests_are_accepted(
    result: Result<Query, GraphQLServerError>,
    json: Json,
    schema: Schema,
    i: int,
    v: int,
)
    requires
        outcome(result) == decoded(Ok(json), schema),
        json is Object,
        is_last_member(json->Object_0, i, "query"@),
        json->Object_0[i].1 is Text,
        parsed_query(json->Object_0[i].1->Text_0) is Ok,
        (forall|j: int|
            0 <= j < json->Object_0.len() ==> (#[trigger] json->Object_0[j]).0 != "variables"@) || (
        is_last_member(json->Object_0, v, "variables"@) && (json->Object_0[v].1 is Null
            || json->Object_0[v].1 is Object)),
    ensures
        result is Ok,
{
    law_query_text_is_the_member(json, i);
    law_variables_are_the_members(json, v, Seq::empty());
}

/// Only a query text that the parser may not get through keeps a request from being decoded.
pub proof fn law_only_query_texts_hold_requests(json: Result<Json, Seq<char>>, i: int)
    ensures
        json is Err || !(json->Ok_0 is Object) ==> has_parseable_query(json),
        json is Ok && json->Ok_0 is Object && (forall|j: int|
            0 <= j < json->Ok_0->Object_0.len() ==> (#[trigger] json->Ok_0->Object_0[j]).0
                != "query"@) ==> has_parseable_query(json),
        json is Ok && json->Ok_0 is Object && is_last_member(json->Ok_0->Object_0, i, "query"@)
            ==> has_parseable_query(json) == (match json->Ok_0->Object_0[i].1 {
            Json::Text(text) => parseable(text),
            _ => true,
        }),
{
    if let Ok(json) = json {
        law_query_text_is_the_member(json, i);
    }
}

} // verus!
