//! What can go wrong when a query is asked for results.
use vstd::prelude::*;
use vstd::string::*;
use crate::ids::Entity;

verus! {

/// An error that occurs when retrieving a specific entity's query result.
#[derive(Debug, PartialEq, Eq, Clone, Copy, Structural)]
pub enum QueryEntityError {
    QueryDoesNotMatch(Entity),
    NoSuchEntity(Entity),
    AliasedMutability(Entity),
}

impl QueryEntityError {
    /// The message for a reader.
    pub fn to_string(&self) -> (message: String)
        ensures
            message@ == match self {
                QueryEntityError::QueryDoesNotMatch(_) =>
                    "The given entity does not have the requested component."@,
                QueryEntityError::NoSuchEntity(_) => "The requested entity does not exist."@,
                QueryEntityError::AliasedMutability(_) =>
                    "The entity was requested mutably more than once."@,
            },
    {
        match self {
            QueryEntityError::QueryDoesNotMatch(_) => {
                "The given entity does not have the requested component.".to_owned()
            },
            QueryEntityError::NoSuchEntity(_) => "The requested entity does not exist.".to_owned(),
            QueryEntityError::AliasedMutability(_) => {
                "The entity was requested mutably more than once.".to_owned()
            },
        }
    }
}

/// An error that occurs when evaluating a query as a single expected result.
///
/// It carries the name of the query.
#[derive(Debug)]
pub enum QuerySingleError {
    NoEntities(&'static str),
    MultipleEntities(&'static str),
}

impl QuerySingleError {
    /// The message for a reader.
    pub fn to_string(&self) -> (message: String)
        ensures
            message@ == match self {
                QuerySingleError::NoEntities(query) => "No entities fit the query "@ + query@,
                QuerySingleError::MultipleEntities(query) => "Multiple entities fit the query "@
                    + query@ + "!"@,
            },
    {
        match self {
            QuerySingleError::NoEntities(query) => {
                "No entities fit the query ".to_owned().concat(query)
            },
            QuerySingleError::MultipleEntities(query) => {
                "Multiple entities fit the query ".to_owned().concat(query).concat("!")
            },
        }
    }
}

} // verus!
