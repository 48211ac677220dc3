use vstd::prelude::*;

verus! {

/// The ways in which a connector's schema, capabilities or responses can
/// fail the checks of the test suite.
#[derive(Debug)]
pub enum Error {
    CollectionIsNotDefined(String),
    CollectionTypeIsNotDefined(String),
    NamedTypeIsNotDefined(String),
    ObjectTypeIsNotDefined(String),
    FieldIsNotDefined(String),
    RelationshipIsNotDefined(String),
    RowsShouldBeNullInRowSet,
    RowsShouldBeNonNullInRowSet,
    AggregatesShouldBeNullInRowSet,
    AggregatesShouldBeNonNullInRowSet,
    /// The expected and the actual number of row sets.
    UnexpectedRowsets(usize, usize),
    ExpectedRowSet(String),
    /// The limit and the number of rows returned.
    TooManyRowsInResponse(u32, u32),
    ExpectedNonEmptyRows,
    ExpectedEmptyRows,
    /// The two responses that differ.
    ExpectedMatchingResponses(crate::query::QueryResponse, crate::query::QueryResponse),
    MissingField(String),
    UnexpectedField(String),
    MultipleEqualityOperators(String),
    ResponseDoesNotSatisfy(String),
    /// The path of the offending value and what was expected there.
    InvalidValueInResponse(Vec<String>, String),
    InvalidRequest(String),
    ExpectedArrayType(Vec<String>),
    ExpectedObjectType(Vec<String>),
    /// The version the connector claims and the version requirement of the specification.
    IncompatibleSpecification(String, String),
    /// A version or version requirement that does not parse.
    SemverError(String),
    OtherError(String),
}

impl Error {
    /// A copy of the error.
    pub fn duplicate(&self) -> (r: Error)
        ensures
            r@ == self@,
    {
        match self {
            Error::CollectionIsNotDefined(s) => Error::CollectionIsNotDefined(s.clone()),
            Error::CollectionTypeIsNotDefined(s) => Error::CollectionTypeIsNotDefined(s.clone()),
            Error::NamedTypeIsNotDefined(s) => Error::NamedTypeIsNotDefined(s.clone()),
            Error::ObjectTypeIsNotDefined(s) => Error::ObjectTypeIsNotDefined(s.clone()),
            Error::FieldIsNotDefined(s) => Error::FieldIsNotDefined(s.clone()),
            Error::RelationshipIsNotDefined(s) => Error::RelationshipIsNotDefined(s.clone()),
            Error::RowsShouldBeNullInRowSet => Error::RowsShouldBeNullInRowSet,
            Error::RowsShouldBeNonNullInRowSet => Error::RowsShouldBeNonNullInRowSet,
            Error::AggregatesShouldBeNullInRowSet => Error::AggregatesShouldBeNullInRowSet,
            Error::AggregatesShouldBeNonNullInRowSet => Error::AggregatesShouldBeNonNullInRowSet,
            Error::UnexpectedRowsets(a, b) => Error::UnexpectedRowsets(*a, *b),
            Error::ExpectedRowSet(s) => Error::ExpectedRowSet(s.clone()),
            Error::TooManyRowsInResponse(a, b) => Error::TooManyRowsInResponse(*a, *b),
            Error::ExpectedNonEmptyRows => Error::ExpectedNonEmptyRows,
            Error::ExpectedEmptyRows => Error::ExpectedEmptyRows,
            Error::ExpectedMatchingResponses(a, b) => Error::ExpectedMatchingResponses(
                crate::rowset::copy_response(a),
                crate::rowset::copy_response(b),
            ),
            Error::MissingField(s) => Error::MissingField(s.clone()),
            Error::UnexpectedField(s) => Error::UnexpectedField(s.clone()),
            Error::MultipleEqualityOperators(s) => Error::MultipleEqualityOperators(s.clone()),
            Error::ResponseDoesNotSatisfy(s) => Error::ResponseDoesNotSatisfy(s.clone()),
            Error::InvalidValueInResponse(p, s) => Error::InvalidValueInResponse(
                crate::text::copy_path(p),
                s.clone(),
            ),
            Error::InvalidRequest(s) => Error::InvalidRequest(s.clone()),
            Error::ExpectedArrayType(p) => Error::ExpectedArrayType(crate::text::copy_path(p)),
            Error::ExpectedObjectType(p) => Error::ExpectedObjectType(crate::text::copy_path(p)),
            Error::IncompatibleSpecification(a, b) => Error::IncompatibleSpecification(a.clone(), b.clone()),
            Error::SemverError(s) => Error::SemverError(s.clone()),
            Error::OtherError(s) => Error::OtherError(s.clone()),
        }
    }
}

/// What an error says, with strings taken by their characters.
pub enum Fault {
    CollectionIsNotDefined(Seq<char>),
    CollectionTypeIsNotDefined(Seq<char>),
    NamedTypeIsNotDefined(Seq<char>),
    ObjectTypeIsNotDefined(Seq<char>),
    FieldIsNotDefined(Seq<char>),
    RelationshipIsNotDefined(Seq<char>),
    RowsShouldBeNullInRowSet,
    RowsShouldBeNonNullInRowSet,
    AggregatesShouldBeNullInRowSet,
    AggregatesShouldBeNonNullInRowSet,
    UnexpectedRowsets(nat, nat),
    ExpectedRowSet(Seq<char>),
    TooManyRowsInResponse(nat, nat),
    ExpectedNonEmptyRows,
    ExpectedEmptyRows,
    ExpectedMatchingResponses(Seq<crate::rowset::RowSetValue>, Seq<crate::rowset::RowSetValue>),
    MissingField(Seq<char>),
    UnexpectedField(Seq<char>),
    MultipleEqualityOperators(Seq<char>),
    ResponseDoesNotSatisfy(Seq<char>),
    InvalidValueInResponse(Seq<Seq<char>>, Seq<char>),
    InvalidRequest(Seq<char>),
    ExpectedArrayType(Seq<Seq<char>>),
    ExpectedObjectType(Seq<Seq<char>>),
    IncompatibleSpecification(Seq<char>, Seq<char>),
    SemverError(Seq<char>),
    OtherError(Seq<char>),
}

/// A path of strings taken by their characters.
pub open spec fn path_view(p: Seq<String>) -> Seq<Seq<char>> {
    p.map_values(|s: String| s@)
}

impl View for Error {
    type V = Fault;

    open spec fn view(&self) -> Fault {
        match self {
            Error::CollectionIsNotDefined(s) => Fault::CollectionIsNotDefined(s@),
            Error::CollectionTypeIsNotDefined(s) => Fault::CollectionTypeIsNotDefined(s@),
            Error::NamedTypeIsNotDefined(s) => Fault::NamedTypeIsNotDefined(s@),
            Error::ObjectTypeIsNotDefined(s) => Fault::ObjectTypeIsNotDefined(s@),
            Error::FieldIsNotDefined(s) => Fault::FieldIsNotDefined(s@),
            Error::RelationshipIsNotDefined(s) => Fault::RelationshipIsNotDefined(s@),
            Error::RowsShouldBeNullInRowSet => Fault::RowsShouldBeNullInRowSet,
            Error::RowsShouldBeNonNullInRowSet => Fault::RowsShouldBeNonNullInRowSet,
            Error::AggregatesShouldBeNullInRowSet => Fault::AggregatesShouldBeNullInRowSet,
            Error::AggregatesShouldBeNonNullInRowSet => Fault::AggregatesShouldBeNonNullInRowSet,
            Error::UnexpectedRowsets(a, b) => Fault::UnexpectedRowsets(*a as nat, *b as nat),
            Error::ExpectedRowSet(s) => Fault::ExpectedRowSet(s@),
            Error::TooManyRowsInResponse(a, b) => Fault::TooManyRowsInResponse(*a as nat, *b as nat),
            Error::ExpectedNonEmptyRows => Fault::ExpectedNonEmptyRows,
            Error::ExpectedEmptyRows => Fault::ExpectedEmptyRows,
            Error::ExpectedMatchingResponses(a, b) => Fault::ExpectedMatchingResponses(
                crate::rowset::response_value(*a),
                crate::rowset::response_value(*b),
            ),
            Error::MissingField(s) => Fault::MissingField(s@),
            Error::UnexpectedField(s) => Fault::UnexpectedField(s@),
            Error::MultipleEqualityOperators(s) => Fault::MultipleEqualityOperators(s@),
            Error::ResponseDoesNotSatisfy(s) => Fault::ResponseDoesNotSatisfy(s@),
            Error::InvalidValueInResponse(p, s) => Fault::InvalidValueInResponse(path_view(p@), s@),
            Error::InvalidRequest(s) => Fault::InvalidRequest(s@),
            Error::ExpectedArrayType(p) => Fault::ExpectedArrayType(path_view(p@)),
            Error::ExpectedObjectType(p) => Fault::ExpectedObjectType(path_view(p@)),
            Error::IncompatibleSpecification(a, b) => Fault::IncompatibleSpecification(a@, b@),
            Error::SemverError(s) => Fault::SemverError(s@),
            Error::OtherError(s) => Fault::OtherError(s@),
        }
    }
}

/// The fault of a check's outcome, if it failed.
pub open spec fn fault_of(r: Result<(), Error>) -> Option<Fault> {
    match r {
        Ok(()) => None,
        Err(e) => Some(e@),
    }
}

/// The first fault among a sequence of outcomes.
pub open spec fn first_fault(s: Seq<Option<Fault>>) -> Option<Fault>
    decreases s.len(),
{
    if s.len() == 0 {
        None
    } else if s[0] is Some {
        s[0]
    } else {
        first_fault(s.drop_first())
    }
}

/// The first fault of a prefix extends by the next outcome.
#[verifier::spinoff_prover]
pub proof fn lemma_first_fault_step(s: Seq<Option<Fault>>, i: int)
    requires
        0 <= i < s.len(),
    ensures
        first_fault(s.take(i)) is None ==> first_fault(s.take(i + 1)) == s[i],
        first_fault(s.take(i)) is Some ==> first_fault(s.take(i + 1)) == first_fault(s.take(i)),
    decreases i,
{
    let t = s.take(i + 1);
    assert(t[0] == s[0]);
    if i > 0 {
        assert(s.take(i)[0] == s[0]);
        lemma_first_fault_step(s.drop_first(), i - 1);
        assert(s.take(i).drop_first() =~= s.drop_first().take(i - 1));
        assert(t.drop_first() =~= s.drop_first().take(i));
    } else {
        assert(t.drop_first() =~= Seq::<Option<Fault>>::empty());
        assert(first_fault(Seq::<Option<Fault>>::empty()) is None);
        assert(s.take(0) =~= Seq::<Option<Fault>>::empty());
    }
}

/// Once a prefix holds a fault, the first fault of the whole sequence is
/// the prefix's.
pub proof fn lemma_first_fault_prefix(s: Seq<Option<Fault>>, n: int)
    requires
        0 <= n <= s.len(),
        first_fault(s.take(n)) is Some,
    ensures
        first_fault(s) == first_fault(s.take(n)),
    decreases n,
{
    assert(s.take(n)[0] == s[0]);
    if s[0] is None {
        assert(s.take(n).drop_first() =~= s.drop_first().take(n - 1));
        lemma_first_fault_prefix(s.drop_first(), n - 1);
    }
}

/// The first fault of the whole sequence, once every entry has been seen.
pub proof fn lemma_first_fault_all(s: Seq<Option<Fault>>)
    ensures
        first_fault(s.take(s.len() as int)) == first_fault(s),
{
    assert(s.take(s.len() as int) =~= s);
}

/// There is no first fault exactly when no outcome is a fault.
pub proof fn lemma_first_fault_none(s: Seq<Option<Fault>>)
    ensures
        first_fault(s) is None <==> forall|i: int| 0 <= i < s.len() ==> #[trigger] s[i] is None,
    decreases s.len(),
{
    if s.len() > 0 {
        lemma_first_fault_none(s.drop_first());
        assert forall|i: int| 0 < i < s.len() implies s.drop_first()[i - 1] == #[trigger] s[i] by {}
        if first_fault(s) is None {
            assert forall|i: int| 0 <= i < s.len() implies #[trigger] s[i] is None by {
                if i > 0 {
                    assert(s.drop_first()[i - 1] is None);
                }
            }
        }
        if forall|i: int| 0 <= i < s.len() ==> #[trigger] s[i] is None {
            assert(s[0] is None);
            assert forall|i: int| 0 <= i < s.drop_first().len() implies #[trigger] s.drop_first()[i] is None by {
                assert(s[i + 1] is None);
            }
        }
    }
}

} // verus!
