//! GraphQL queries as clients submit them.
use vstd::prelude::*;

use vstd::std_specs::cmp::PartialEqSpec;
use vstd::std_specs::convert::FromSpec;

use crate::json::{same_members, Json, JsonValue};
use crate::string_map::StringMap;

verus! {

/// A GraphQL schema with a name and an ID.
#[derive(Debug, PartialEq)]
pub struct Schema {
    pub name: String,
    pub id: String,
    pub document: graphql_parser::schema::Document,
}

impl Clone for Schema {
    fn clone(&self) -> (copy: Self)
        ensures
            copy == *self,
    {
        Schema {
            name: self.name.clone(),
            id: self.id.clone(),
            document: self.document.clone(),
        }
    }
}

/// The value of a variable in a query: any JSON value.
pub type QueryVariableValue = JsonValue;

/// The variables of a query by name.
#[derive(Debug)]
pub struct QueryVariables {
    values: StringMap<QueryVariableValue>,
}

impl View for QueryVariables {
    type V = Map<Seq<char>, Json>;

    closed spec fn view(&self) -> Map<Seq<char>, Json> {
        self.values@
    }
}

impl QueryVariables {
    /// No variables.
    pub fn new() -> (variables: Self)
        ensures
            variables@ == Map::<Seq<char>, Json>::empty(),
    {
        QueryVariables { values: StringMap::new() }
    }

    /// Takes the variables from the members of a JSON object; other values hold none.
    pub fn from_json(value: &JsonValue) -> (variables: Option<Self>)
        ensures
            match variables {
                Some(v) => value@ is Object && v@ == value@.members(),
                None => !(value@ is Object),
            },
    {
        match value.to_members() {
            Some(values) => Some(QueryVariables { values }),
            None => None,
        }
    }

    /// Gives a variable a value.
    pub fn insert(&mut self, name: String, value: QueryVariableValue)
        ensures
            final(self)@ == old(self)@.insert(name@, value@),
    {
        self.values.insert(name, value);
    }

    /// The value of a variable.
    pub fn get(&self, name: &String) -> (value: Option<&QueryVariableValue>)
        ensures
            match value {
                Some(v) => self@.contains_key(name@) && v@ == self@[name@],
                None => !self@.contains_key(name@),
            },
    {
        self.values.get(name)
    }
}

impl PartialEq for QueryVariables {
    fn eq(&self, other: &Self) -> (equal: bool) {
        same_members(&self.values, &other.values)
    }
}

impl vstd::std_specs::cmp::PartialEqSpecImpl for QueryVariables {
    open spec fn obeys_eq_spec() -> bool {
        true
    }

    open spec fn eq_spec(&self, other: &Self) -> bool {
        self@ == other@
    }
}

/// A query, ready to be run against a schema.
#[derive(Debug)]
pub struct Query {
    pub document: graphql_parser::query::Document,
    pub variables: Option<QueryVariables>,
    pub schema: Schema,
}

/// A query by the views of its parts.
pub struct QueryView {
    pub document: graphql_parser::query::Document,
    pub variables: Option<Map<Seq<char>, Json>>,
    pub schema: Schema,
}

impl View for Query {
    type V = QueryView;

    open spec fn view(&self) -> QueryView {
        QueryView {
            document: self.document,
            variables: match self.variables {
                Some(variables) => Some(variables@),
                None => None,
            },
            schema: self.schema,
        }
    }
}

/// Why a query cannot be run.
#[derive(Debug)]
pub enum QueryError {
    /// The text is no GraphQL query.
    ParseError(graphql_parser::query::ParseError),
}

impl From<graphql_parser::query::ParseError> for QueryError {
    fn from(error: graphql_parser::query::ParseError) -> (converted: QueryError) {
        QueryError::ParseError(error)
    }
}

impl vstd::std_specs::convert::FromSpecImpl<graphql_parser::query::ParseError> for QueryError {
    open spec fn obeys_from_spec() -> bool {
        true
    }

    open spec fn from_spec(error: graphql_parser::query::ParseError) -> QueryError {
        QueryError::ParseError(error)
    }
}

/// Why a request is answered with an error.
#[derive(Debug)]
pub enum GraphQLServerError {
    /// The client sent something that is no request.
    ClientError(String),
    /// The query of the request cannot be run.
    QueryError(QueryError),
}

/// An error by the view of its message.
pub enum ServerErrorView {
    ClientError(Seq<char>),
    QueryError(QueryError),
}

impl View for GraphQLServerError {
    type V = ServerErrorView;

    open spec fn view(&self) -> ServerErrorView {
        match *self {
            GraphQLServerError::ClientError(message) => ServerErrorView::ClientError(message@),
            GraphQLServerError::QueryError(error) => ServerErrorView::QueryError(error),
        }
    }
}

impl From<QueryError> for GraphQLServerError {
    fn from(error: QueryError) -> (converted: GraphQLServerError) {
        GraphQLServerError::QueryError(error)
    }
}

impl vstd::std_specs::convert::FromSpecImpl<QueryError> for GraphQLServerError {
    open spec fn obeys_from_spec() -> bool {
        true
    }

    open spec fn from_spec(error: QueryError) -> GraphQLServerError {
        GraphQLServerError::QueryError(error)
    }
}

/// A query is known by its document, its schema and the contents of its variables.
pub proof fn law_queries_are_known_by_their_parts(query: Query)
    ensures
        query@.document == query.document,
        query@.schema == query.schema,
        query@.variables is Some <==> query.variables is Some,
        query.variables is Some ==> query@.variables->0 == query.variables->0@,
{
}

/// An error is known by what it says.
pub proof fn law_errors_are_known_by_what_they_say(error: GraphQLServerError)
    ensures
        match error {
            GraphQLServerError::ClientError(message) => error@ == ServerErrorView::ClientError(
                message@,
            ),
            GraphQLServerError::QueryError(cause) => error@ == ServerErrorView::QueryError(cause),
        },
{
}

/// Comparing two sets of variables tells whether they have the same names, each with the same
/// value.
pub proof fn law_equal_variables(a: QueryVariables, b: QueryVariables)
    ensures
        QueryVariables::obeys_eq_spec(),
        a.eq_spec(&b) <==> {
            &&& forall|name: Seq<char>| #[trigger]
                a@.contains_key(name) <==> b@.contains_key(name)
            &&& forall|name: Seq<char>| #[trigger] a@.contains_key(name) ==> a@[name] == b@[name]
        },
{
    if (forall|name: Seq<char>| #[trigger] a@.contains_key(name) <==> b@.contains_key(name)) && (
    forall|name: Seq<char>| #[trigger] a@.contains_key(name) ==> a@[name] == b@[name]) {
        assert(a@ =~= b@);
    }
}

/// What the parser finds fault with is kept on the way to the answer.
pub proof fn law_faults_are_kept(fault: graphql_parser::query::ParseError, error: QueryError)
    ensures
        <QueryError as FromSpec<graphql_parser::query::ParseError>>::obeys_from_spec(),
        <QueryError as FromSpec<graphql_parser::query::ParseError>>::from_spec(fault)
            == QueryError::ParseError(fault),
        <GraphQLServerError as FromSpec<QueryError>>::obeys_from_spec(),
        <GraphQLServerError as FromSpec<QueryError>>::from_spec(error)
            == GraphQLServerError::QueryError(error),
{
}

} // verus!
