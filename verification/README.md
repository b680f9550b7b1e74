# graph_node

The core of a node that answers GraphQL queries over entities kept in Postgres, written in Verus.
Its logic stands under contracts that Verus proves.

## Layout

- `src/`: the verified library.
  - `assoc`, `string_map`: association lists, and maps keyed by strings.
  - `json`: JSON values as trees, and how documents become such values.
  - `graphql`: the types and the query parser of `graphql_parser`.
  - `query`, `request`: queries, and how they are decoded from the bodies of HTTP requests.
  - `entity`, `store`: entities and their merge; keys, filters, queries, changes, event sources, and
    the traits of stores.
  - `postgres`: the statements that a store sends to the database, what it makes of the replies,
    what a query finds, its subscriptions to entity changes, and what subscribers receive.
- `tests/`: tests of the library, with the outside crates linked.
- `app/`: futures, channels, timers and the database connection around the library.

## What is stated

A request is decoded exactly as its bytes say, and each way to refuse it is told apart. Query texts
with a block string in which the parser would cut a wide space apart, and panic, are not handed to
it, even where it would find before that string that the tokens make up no query. Such a request is
given back, to be completed with whatever the parser makes of its text.

A query asks the database for the entities of its type that pass its filter, in its order, and for
the page of these that its range names. An update is merged into the entity that was found, what was
set is what is read, and a deleted entity is not found.

A subscriber is told of the changes that were subscribed to and of no others, in their order and
each once, whatever happens to the streams of other subscribers.

Such statements over several functions are the proof functions whose names begin with `law_`. Those
about entities hold of a database that runs the statements as `postgres::statement` and
`postgres::selection` describe it.

## What is not proved

The functions marked `external_body` and the `assume_specification` items describe `serde_json`,
`graphql_parser`, `hyper`, `ethereum_types`, `uuid` and the standard library. Their doc comments
say what is believed of each.
