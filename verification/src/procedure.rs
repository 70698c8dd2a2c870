use vstd::prelude::*;
use vstd::string::StringExecFns;

verus! {

/// What the search procedure refuses before, or reports after, a search.
#[derive(Debug)]
pub enum ProcedureError {
    /// `k` or the size of the search list is zero.
    NonPositiveLimit,
    /// The search list is smaller than `k`.
    ListSmallerThanK,
    /// No vertex type has a property of this name.
    PropertyNotFound { name: String },
    /// The query vector has no components.
    EmptyQuery,
    /// A filter condition was given; none can be compiled into a mask.
    FilterNotSupported,
    /// The search itself failed, for the reason given.
    SearchFailed { reason: String },
}

/// A property of a vertex type: its name and its id.
pub struct PropertyEntry {
    pub name: String,
    pub id: u32,
}

/// The text that goes with an error.
pub open spec fn message_of(e: ProcedureError) -> Seq<char> {
    match e {
        ProcedureError::NonPositiveLimit => "k and l_value must be positive"@,
        ProcedureError::ListSmallerThanK => "l_value must be greater than or equal to k"@,
        ProcedureError::PropertyNotFound { name } => "Property '"@ + name@ + "' not found"@,
        ProcedureError::EmptyQuery => "Query vector cannot be empty"@,
        ProcedureError::FilterNotSupported => "Filter conditions are not supported"@,
        ProcedureError::SearchFailed { reason } => "Vector search failed: "@ + reason@,
    }
}

impl ProcedureError {
    /// The text that goes with the error.
    pub fn message(&self) -> (text: String)
        ensures
            text@ == message_of(*self),
    {
        match self {
            ProcedureError::NonPositiveLimit => String::from_str("k and l_value must be positive"),
            ProcedureError::ListSmallerThanK => String::from_str(
                "l_value must be greater than or equal to k",
            ),
            ProcedureError::PropertyNotFound { name } => String::from_str("Property '").concat(
                name.as_str(),
            ).concat("' not found"),
            ProcedureError::EmptyQuery => String::from_str("Query vector cannot be empty"),
            ProcedureError::FilterNotSupported => String::from_str(
                "Filter conditions are not supported",
            ),
            ProcedureError::SearchFailed { reason } => String::from_str(
                "Vector search failed: ",
            ).concat(reason.as_str()),
        }
    }
}

/// Holds `k` and the size of the search list against each other: both
/// must be positive, and the list no smaller than `k`.
pub fn check_limits(k: u32, l_value: u32) -> (r: Result<(), ProcedureError>)
    ensures
        k == 0 || l_value == 0 ==> r matches Err(ProcedureError::NonPositiveLimit),
        k > 0 && l_value > 0 && k > l_value ==> r matches Err(ProcedureError::ListSmallerThanK),
        0 < k <= l_value ==> r is Ok,
{
    if k == 0 || l_value == 0 {
        return Err(ProcedureError::NonPositiveLimit);
    }
    if k > l_value {
        return Err(ProcedureError::ListSmallerThanK);
    }
    Ok(())
}

/// Refuses a query vector without components.
pub fn check_query(query_len: usize) -> (r: Result<(), ProcedureError>)
    ensures
        query_len == 0 ==> r matches Err(ProcedureError::EmptyQuery),
        query_len > 0 ==> r is Ok,
{
    if query_len == 0 {
        Err(ProcedureError::EmptyQuery)
    } else {
        Ok(())
    }
}

/// Refuses a filter condition: no condition can be compiled into a mask.
pub fn check_filter(filter_condition: Option<&str>) -> (r: Result<(), ProcedureError>)
    ensures
        filter_condition is Some ==> r matches Err(ProcedureError::FilterNotSupported),
        filter_condition is None ==> r is Ok,
{
    match filter_condition {
        Some(_) => Err(ProcedureError::FilterNotSupported),
        None => Ok(()),
    }
}

/// Whether the `p`-th property of the `t`-th vertex type has the name.
pub open spec fn names_property(
    vertex_types: Seq<Vec<PropertyEntry>>,
    name: Seq<char>,
    t: int,
    p: int,
) -> bool {
    0 <= t < vertex_types.len() && 0 <= p < vertex_types[t]@.len() && vertex_types[t]@[p].name@
        == name
}

/// Whether the place `(t, p)` comes before the place `(u, q)`.
pub open spec fn comes_before(t: int, p: int, u: int, q: int) -> bool {
    t < u || (t == u && p < q)
}

/// What resolving a property name comes to: the id of the first property
/// of that name, going through the vertex types in their order and
/// through each type's properties in theirs, or `None` where no vertex
/// type has such a property.
pub open spec fn resolves_to(
    vertex_types: Seq<Vec<PropertyEntry>>,
    name: Seq<char>,
    r: Option<u32>,
) -> bool {
    match r {
        Some(id) => exists|t: int, p: int|
            {
                &&& names_property(vertex_types, name, t, p)
                &&& vertex_types[t]@[p].id == id
                &&& forall|u: int, q: int|
                    comes_before(u, q, t, p) ==> !names_property(vertex_types, name, u, q)
            },
        None => forall|t: int, p: int| !names_property(vertex_types, name, t, p),
    }
}

/// The id of the first property of the given name, or `None`.
pub fn resolve_property_name(property_name: &str, vertex_types: &[Vec<PropertyEntry>]) -> (r: Option<
    u32,
>)
    ensures
        resolves_to(vertex_types@, property_name@, r),
{
    let wanted = String::from_str(property_name);
    let mut t: usize = 0;
    while t < vertex_types.len()
        invariant
            t <= vertex_types.len(),
            wanted@ == property_name@,
            forall|u: int, q: int| u < t ==> !names_property(vertex_types@, property_name@, u, q),
        decreases vertex_types.len() - t,
    {
        let properties = &vertex_types[t];
        let mut p: usize = 0;
        while p < properties.len()
            invariant
                t < vertex_types.len(),
                p <= properties.len(),
                *properties == vertex_types@[t as int],
                wanted@ == property_name@,
                forall|u: int, q: int|
                    u < t ==> !names_property(vertex_types@, property_name@, u, q),
                forall|q: int| q < p ==> !names_property(vertex_types@, property_name@, t as int, q),
            decreases properties.len() - p,
        {
            if properties[p].name == wanted {
                let id = properties[p].id;
                proof {
                    assert(names_property(vertex_types@, property_name@, t as int, p as int));
                    assert(forall|u: int, q: int|
                        comes_before(u, q, t as int, p as int) ==> !names_property(
                            vertex_types@,
                            property_name@,
                            u,
                            q,
                        ));
                }
                return Some(id);
            }
            p += 1;
        }
        t += 1;
    }
    None
}

/// What the search procedure comes to once the vertex types are known and,
/// where it gets that far, the search has answered. The checks come in this
/// order: the property must be known, the query must have components and no
/// filter condition may be given.
pub open spec fn after_catalog(
    property_name: Seq<char>,
    query_len: usize,
    filter_condition: Option<&str>,
    property: Option<u32>,
    searched: Option<Result<Vec<u64>, String>>,
    r: Result<Vec<u64>, ProcedureError>,
) -> bool {
    match property {
        None => (r matches Err(ProcedureError::PropertyNotFound { name }) && name@ == property_name)
            && searched is None,
        Some(_) => if query_len == 0 {
            (r matches Err(ProcedureError::EmptyQuery)) && searched is None
        } else if filter_condition is Some {
            (r matches Err(ProcedureError::FilterNotSupported)) && searched is None
        } else {
            match searched {
                Some(Ok(found)) => r == Ok::<Vec<u64>, ProcedureError>(found),
                Some(Err(reason)) => r == Err::<Vec<u64>, ProcedureError>(
                    ProcedureError::SearchFailed { reason },
                ),
                None => false,
            }
        },
    }
}

/// The search procedure over plain values. It holds `k` and the size of
/// the search list against each other, has `catalog` list the properties of
/// each vertex type and resolves the property name in them, refuses an
/// empty query and a filter condition, and then has `search` look for the
/// `k` nearest vectors of the property found. The vertex ids that `search`
/// returns are the result; its error is reported as the reason of a failed
/// search.
pub fn vector_search<
    C: FnOnce() -> Vec<Vec<PropertyEntry>>,
    S: FnOnce(u32) -> Result<Vec<u64>, String>,
>(
    property_name: &str,
    query_len: usize,
    k: u32,
    l_value: u32,
    filter_condition: Option<&str>,
    catalog: C,
    search: S,
) -> (r: Result<Vec<u64>, ProcedureError>)
    requires
        catalog.requires(()),
        forall|property: u32| search.requires((property,)),
    ensures
        k == 0 || l_value == 0 ==> r matches Err(ProcedureError::NonPositiveLimit),
        k > 0 && l_value > 0 && k > l_value ==> r matches Err(ProcedureError::ListSmallerThanK),
        0 < k <= l_value ==> exists|
            vertex_types: Vec<Vec<PropertyEntry>>,
            property: Option<u32>,
            searched: Option<Result<Vec<u64>, String>>,
        |
            {
                &&& catalog.ensures((), vertex_types)
                &&& resolves_to(vertex_types@, property_name@, property)
                &&& searched matches Some(outcome) ==> property is Some && search.ensures(
                    (property->Some_0,),
                    outcome,
                )
                &&& after_catalog(
                    property_name@,
                    query_len,
                    filter_condition,
                    property,
                    searched,
                    r,
                )
            },
{
    match check_limits(k, l_value) {
        Err(e) => {
            return Err(e);
        },
        Ok(()) => {},
    }
    let vertex_types = catalog();
    let property = resolve_property_name(property_name, vertex_types.as_slice());
    let ghost mut searched: Option<Result<Vec<u64>, String>> = None;
    let r = match property {
        None => Err(ProcedureError::PropertyNotFound { name: String::from_str(property_name) }),
        Some(id) => match check_query(query_len) {
            Err(e) => Err(e),
            Ok(()) => match check_filter(filter_condition) {
                Err(e) => Err(e),
                Ok(()) => {
                    let outcome = search(id);
                    proof {
                        searched = Some(outcome);
                    }
                    match outcome {
                        Ok(found) => Ok(found),
                        Err(reason) => Err(ProcedureError::SearchFailed { reason }),
                    }
                },
            },
        },
    };
    proof {
        assert(catalog.ensures((), vertex_types) && resolves_to(
            vertex_types@,
            property_name@,
            property,
        ) && (searched matches Some(outcome) ==> property is Some && search.ensures(
            (property->Some_0,),
            outcome,
        )) && after_catalog(
            property_name@,
            query_len,
            filter_condition,
            property,
            searched,
            r,
        ));
    }
    r
}

} // verus!
