//! Who is joined to whom: the index tables of a system.
//!
//! Objects refer to one another by name. Before a system runs, the names are
//! resolved once: for each control volume the connectors that touch it, and
//! for each connector the kind and place of each of its endpoints.

use vstd::prelude::*;
use vstd::string::*;
use crate::connector::Connector;
use crate::names::{lemma_position_of, position, position_of};
use crate::ObjectType;

verus! {

/// The endpoints of each of the connectors, in order.
pub open spec fn endpoints_of(connectors: Seq<Connector>) -> Seq<Seq<Seq<char>>> {
    Seq::new(connectors.len(), |c: int| connectors[c].endpoints())
}

/// The connectors among the first `n` that touch the named object, in
/// rising order.
pub open spec fn touching(endpoints: Seq<Seq<Seq<char>>>, name: Seq<char>, n: int) -> Seq<
    (ObjectType, usize),
>
    decreases n,
{
    if n <= 0 {
        Seq::empty()
    } else {
        let before = touching(endpoints, name, n - 1);
        if endpoints[n - 1].contains(name) {
            before.push((ObjectType::Connector, (n - 1) as usize))
        } else {
            before
        }
    }
}

/// The kind and place of the named object: a zero-dimensional object first,
/// then a one-dimensional one, then a cylinder of the engine.
pub open spec fn resolve(
    zero_dim: Seq<Seq<char>>,
    one_dim: Seq<Seq<char>>,
    cylinders: Option<Seq<Seq<char>>>,
    name: Seq<char>,
) -> Option<(ObjectType, usize)> {
    match position_of(zero_dim, name) {
        Some(i) => Some((ObjectType::ZeroDim, i as usize)),
        None => match position_of(one_dim, name) {
            Some(i) => Some((ObjectType::OneDim, i as usize)),
            None => match cylinders {
                Some(names) => match position_of(names, name) {
                    Some(i) => Some((ObjectType::Cylinder, i as usize)),
                    None => None,
                },
                None => None,
            },
        },
    }
}

/// The kinds and places of the named objects, or the first name that
/// resolves to nothing.
pub open spec fn resolve_all(
    zero_dim: Seq<Seq<char>>,
    one_dim: Seq<Seq<char>>,
    cylinders: Option<Seq<Seq<char>>>,
    names: Seq<Seq<char>>,
) -> Result<Seq<(ObjectType, usize)>, Seq<char>>
    decreases names.len(),
{
    if names.len() == 0 {
        Ok(Seq::empty())
    } else {
        match resolve_all(zero_dim, one_dim, cylinders, names.drop_last()) {
            Err(name) => Err(name),
            Ok(done) => match resolve(zero_dim, one_dim, cylinders, names.last()) {
                Some(found) => Ok(done.push(found)),
                None => Err(names.last()),
            },
        }
    }
}

/// The object that an entry of an index table points at has the given name.
pub open spec fn points_at(
    zero_dim: Seq<Seq<char>>,
    one_dim: Seq<Seq<char>>,
    cylinders: Option<Seq<Seq<char>>>,
    entry: (ObjectType, usize),
    name: Seq<char>,
) -> bool {
    match entry.0 {
        ObjectType::ZeroDim => entry.1 < zero_dim.len() && zero_dim[entry.1 as int] == name,
        ObjectType::OneDim => entry.1 < one_dim.len() && one_dim[entry.1 as int] == name,
        ObjectType::Cylinder => cylinders matches Some(names) && entry.1 < names.len()
            && names[entry.1 as int] == name,
        ObjectType::Connector => false,
    }
}

/// The connectors that touch an object are those, and only those, that have
/// the object's name among their endpoints; they come in rising order.
pub proof fn lemma_touching(endpoints: Seq<Seq<Seq<char>>>, name: Seq<char>, n: int)
    requires
        0 <= n <= endpoints.len(),
        n <= usize::MAX,
    ensures
        forall|k: int|
            0 <= k < touching(endpoints, name, n).len() ==> {
                let entry = #[trigger] touching(endpoints, name, n)[k];
                &&& entry.0 == ObjectType::Connector
                &&& entry.1 < n
                &&& endpoints[entry.1 as int].contains(name)
            },
        forall|k: int, l: int|
            0 <= k < l < touching(endpoints, name, n).len() ==> touching(endpoints, name, n)[k].1
                < touching(endpoints, name, n)[l].1,
        forall|c: int|
            0 <= c < n && endpoints[c].contains(name) ==> touching(endpoints, name, n).contains(
                (ObjectType::Connector, c as usize),
            ),
    decreases n,
{
    if n > 0 {
        lemma_touching(endpoints, name, n - 1);
        let before = touching(endpoints, name, n - 1);
        let now = touching(endpoints, name, n);
        if endpoints[n - 1].contains(name) {
            let added = (ObjectType::Connector, (n - 1) as usize);
            assert(now.last() == added);
            assert forall|k: int| 0 <= k < now.len() implies {
                let entry = #[trigger] now[k];
                &&& entry.0 == ObjectType::Connector
                &&& entry.1 < n
                &&& endpoints[entry.1 as int].contains(name)
            } by {
                if k < before.len() {
                    assert(now[k] == before[k]);
                }
            }
            assert forall|k: int, l: int| 0 <= k < l < now.len() implies now[k].1 < now[l].1 by {
                assert(now[k] == before[k]);
                if l < before.len() {
                    assert(now[l] == before[l]);
                }
            }
            assert forall|c: int| 0 <= c < n && endpoints[c].contains(name) implies now.contains(
                (ObjectType::Connector, c as usize),
            ) by {
                if c < n - 1 {
                    let k = choose|k: int|
                        0 <= k < before.len() && before[k] == (ObjectType::Connector, c as usize);
                    assert(now[k] == before[k]);
                } else {
                    assert(now[now.len() - 1] == added);
                }
            }
        }
    }
}

/// Every endpoint that was resolved points at an object of its name.
pub proof fn lemma_resolve_all(
    zero_dim: Seq<Seq<char>>,
    one_dim: Seq<Seq<char>>,
    cylinders: Option<Seq<Seq<char>>>,
    names: Seq<Seq<char>>,
)
    requires
        zero_dim.len() <= usize::MAX,
        one_dim.len() <= usize::MAX,
        cylinders matches Some(c) ==> c.len() <= usize::MAX,
    ensures
        match resolve_all(zero_dim, one_dim, cylinders, names) {
            Ok(entries) => {
                &&& entries.len() == names.len()
                &&& forall|k: int|
                    0 <= k < entries.len() ==> points_at(
                        zero_dim,
                        one_dim,
                        cylinders,
                        #[trigger] entries[k],
                        names[k],
                    )
            },
            Err(name) => names.contains(name) && resolve(zero_dim, one_dim, cylinders, name)
                is None,
        },
    decreases names.len(),
{
    if names.len() > 0 {
        let rest = names.drop_last();
        lemma_resolve_all(zero_dim, one_dim, cylinders, rest);
        let last = names.last();
        lemma_position_of(zero_dim, last);
        lemma_position_of(one_dim, last);
        if cylinders is Some {
            lemma_position_of(cylinders->Some_0, last);
        }
        match resolve_all(zero_dim, one_dim, cylinders, names) {
            Ok(entries) => {
                let done = resolve_all(zero_dim, one_dim, cylinders, rest)->Ok_0;
                assert forall|k: int| 0 <= k < entries.len() implies points_at(
                    zero_dim,
                    one_dim,
                    cylinders,
                    #[trigger] entries[k],
                    names[k],
                ) by {
                    if k < done.len() {
                        assert(entries[k] == done[k]);
                        assert(names[k] == rest[k]);
                    }
                }
            },
            Err(name) => {
                if resolve_all(zero_dim, one_dim, cylinders, rest) is Err {
                    let k = choose|k: int| 0 <= k < rest.len() && rest[k] == name;
                    assert(names[k] == name);
                } else {
                    assert(names[names.len() - 1] == name);
                }
            },
        }
    }
}

/// Finds the connectors that touch the named object. The result lists them in
/// rising order, each as a pair of `ObjectType::Connector` and its place.
pub fn get_connectors_index(connectors: &Vec<Connector>, obj_name: &str) -> (r: Vec<
    (ObjectType, usize),
>)
    ensures
        r@ == touching(endpoints_of(connectors@), obj_name@, connectors.len() as int),
{
    let mut out: Vec<(ObjectType, usize)> = Vec::new();
    let n: usize = connectors.len();
    let mut c: usize = 0;
    while c < n
        invariant
            n == connectors.len(),
            c <= n,
            out@ == touching(endpoints_of(connectors@), obj_name@, c as int),
        decreases n - c,
    {
        if position(connectors[c].connecting(), obj_name).is_some() {
            out.push((ObjectType::Connector, c));
        }
        c = c + 1;
    }
    out
}

/// Resolves one endpoint name to the kind and place of the object.
pub fn resolve_name(
    zero_dim: &Vec<String>,
    one_dim: &Vec<String>,
    cylinders: &Option<Vec<String>>,
    name: &str,
) -> (r: Option<(ObjectType, usize)>)
    ensures
        r == resolve(
            zero_dim.deep_view(),
            one_dim.deep_view(),
            names_of(cylinders),
            name@,
        ),
{
    match position(zero_dim, name) {
        Some(i) => Some((ObjectType::ZeroDim, i)),
        None => match position(one_dim, name) {
            Some(i) => Some((ObjectType::OneDim, i)),
            None => match cylinders {
                Some(names) => match position(names, name) {
                    Some(i) => Some((ObjectType::Cylinder, i)),
                    None => None,
                },
                None => None,
            },
        },
    }
}

/// The names of the cylinders, where there is an engine.
pub open spec fn names_of(cylinders: &Option<Vec<String>>) -> Option<Seq<Seq<char>>> {
    match cylinders {
        Some(names) => Some(names.deep_view()),
        None => None,
    }
}

/// Resolves the endpoints of a connector. The error is the first name that
/// is no object of the system.
pub fn get_dim_obj_index(
    zero_dim: &Vec<String>,
    one_dim: &Vec<String>,
    cylinders: &Option<Vec<String>>,
    conn_list: &Vec<String>,
) -> (r: Result<Vec<(ObjectType, usize)>, String>)
    ensures
        match r {
            Ok(entries) => resolve_all(
                zero_dim.deep_view(),
                one_dim.deep_view(),
                names_of(cylinders),
                conn_list.deep_view(),
            ) == Ok::<Seq<(ObjectType, usize)>, Seq<char>>(entries@),
            Err(name) => resolve_all(
                zero_dim.deep_view(),
                one_dim.deep_view(),
                names_of(cylinders),
                conn_list.deep_view(),
            ) == Err::<Seq<(ObjectType, usize)>, Seq<char>>(name@),
        },
{
    let ghost zero = zero_dim.deep_view();
    let ghost one = one_dim.deep_view();
    let ghost cyl = names_of(cylinders);
    let mut out: Vec<(ObjectType, usize)> = Vec::new();
    let n: usize = conn_list.len();
    let mut k: usize = 0;
    assert(conn_list.deep_view().take(0) =~= Seq::empty());
    while k < n
        invariant
            n == conn_list.len(),
            k <= n,
            zero == zero_dim.deep_view(),
            one == one_dim.deep_view(),
            cyl == names_of(cylinders),
            resolve_all(zero, one, cyl, conn_list.deep_view().take(k as int)) == Ok::<
                Seq<(ObjectType, usize)>,
                Seq<char>,
            >(out@),
        decreases n - k,
    {
        proof {
            assert(conn_list.deep_view().take(k + 1).drop_last() =~= conn_list.deep_view().take(
                k as int,
            ));
            assert(conn_list.deep_view().take(k + 1).last() == conn_list[k as int]@);
        }
        match resolve_name(zero_dim, one_dim, cylinders, conn_list[k].as_str()) {
            Some(found) => {
                out.push(found);
            },
            None => {
                proof {
                    lemma_unresolved_stays(zero, one, cyl, conn_list.deep_view(), k + 1);
                }
                return Err(conn_list[k].clone());
            },
        }
        k = k + 1;
    }
    assert(conn_list.deep_view().take(n as int) =~= conn_list.deep_view());
    Ok(out)
}

proof fn lemma_unresolved_stays(
    zero_dim: Seq<Seq<char>>,
    one_dim: Seq<Seq<char>>,
    cylinders: Option<Seq<Seq<char>>>,
    names: Seq<Seq<char>>,
    k: int,
)
    requires
        0 <= k <= names.len(),
        resolve_all(zero_dim, one_dim, cylinders, names.take(k)) is Err,
    ensures
        resolve_all(zero_dim, one_dim, cylinders, names) == resolve_all(
            zero_dim,
            one_dim,
            cylinders,
            names.take(k),
        ),
    decreases names.len() - k,
{
    if k == names.len() {
        assert(names.take(k) =~= names);
    } else {
        assert(names.take(k + 1).drop_last() =~= names.take(k));
        lemma_unresolved_stays(zero_dim, one_dim, cylinders, names, k + 1);
    }
}

} // verus!
