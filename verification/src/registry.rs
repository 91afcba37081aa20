//! The registry of server functions, and the choice of the routes that a
//! router is built from.
//!
//! Records are kept in the order in which they were registered. Two records
//! with the same method and path stand for one route: the one that was
//! registered first is mounted, the later ones are passed over.

use http::Method;
use vstd::prelude::*;
use vstd::string::StringExecFns;

verus! {

#[verifier::external_type_specification]
#[verifier::external_body]
pub struct ExMethod(http::Method);

/// The text of an HTTP method, as `Method::as_str` gives it.
pub uninterp spec fn method_text(method: Method) -> Seq<char>;

/// `Method::as_str`: assumed to return the method's text.
pub assume_specification[ Method::as_str ](method: &Method) -> (text: &str)
    ensures
        text@ == method_text(*method),
;

/// `Method::clone`: assumed to keep the text.
pub assume_specification[ <Method as Clone>::clone ](method: &Method) -> (copy: Method)
    ensures
        method_text(copy) == method_text(*method),
;

/// The key under which a route is known: the method, a space, the path.
pub open spec fn route_key(method: Seq<char>, path: Seq<char>) -> Seq<char> {
    method + seq![' '] + path
}

/// A function endpoint that can be called from the client: a method, a path,
/// and what makes its handler.
pub struct ServerFunction<H> {
    path: &'static str,
    method: Method,
    handler: H,
}

impl<H> ServerFunction<H> {
    /// The path, as a sequence of characters.
    pub closed spec fn path_text(&self) -> Seq<char> {
        self.path@
    }

    /// The text of the method.
    pub closed spec fn method_name(&self) -> Seq<char> {
        method_text(self.method)
    }

    /// What makes the handler.
    pub closed spec fn handler_factory(&self) -> H {
        self.handler
    }

    /// The key of the route that this record asks for.
    pub open spec fn key_text(&self) -> Seq<char> {
        route_key(self.method_name(), self.path_text())
    }

    /// A record for `method` and `path`, with what makes its handler.
    pub fn new(method: Method, path: &'static str, handler: H) -> (record: Self)
        ensures
            record.method_name() == method_text(method),
            record.path_text() == path@,
            record.handler_factory() == handler,
    {
        ServerFunction { path, method, handler }
    }

    /// The path of the server function.
    pub fn path(&self) -> (path: &'static str)
        ensures
            path@ == self.path_text(),
    {
        self.path
    }

    /// The HTTP method the server function expects.
    pub fn method(&self) -> (method: Method)
        ensures
            method_text(method) == self.method_name(),
    {
        self.method.clone()
    }

    /// What makes the handler of the server function.
    pub fn handler(&self) -> (handler: &H)
        ensures
            *handler == self.handler_factory(),
    {
        &self.handler
    }

    /// Makes the handler that is mounted on a router. The handler is made when
    /// the router is built; it is not run here.
    pub fn method_router<R>(&self) -> (router: R) where H: Fn() -> R
        requires
            call_requires(self.handler_factory(), ()),
        ensures
            call_ensures(self.handler_factory(), (), router),
    {
        (self.handler)()
    }

    /// The key of the route that this record asks for.
    pub fn key(&self) -> (key: String)
        ensures
            key@ == self.key_text(),
    {
        proof {
            reveal_strlit(" ");
            assert(" "@ =~= seq![' ']);
        }
        String::from_str(self.method.as_str()).concat(" ").concat(self.path)
    }
}

/// The keys of a run of records.
pub open spec fn route_keys<H>(records: Seq<ServerFunction<H>>) -> Seq<Seq<char>> {
    records.map_values(|record: ServerFunction<H>| record.key_text())
}

/// The key at `at` occurs at no earlier position.
pub open spec fn is_first_registration(keys: Seq<Seq<char>>, at: int) -> bool {
    &&& 0 <= at < keys.len()
    &&& forall|earlier: int| 0 <= earlier < at ==> keys[earlier] != keys[at]
}

/// The positions whose key occurs at no earlier position, in rising order.
pub open spec fn first_registrations(keys: Seq<Seq<char>>) -> Seq<int>
    decreases keys.len(),
{
    if keys.len() == 0 {
        Seq::empty()
    } else {
        let earlier = first_registrations(keys.drop_last());
        if is_first_registration(keys, keys.len() - 1) {
            earlier.push(keys.len() - 1)
        } else {
            earlier
        }
    }
}

/// The positions whose key occurs at an earlier position, in rising order:
/// the registrations that are passed over.
pub open spec fn repeated_registrations(keys: Seq<Seq<char>>) -> Seq<int>
    decreases keys.len(),
{
    if keys.len() == 0 {
        Seq::empty()
    } else {
        let earlier = repeated_registrations(keys.drop_last());
        if is_first_registration(keys, keys.len() - 1) {
            earlier
        } else {
            earlier.push(keys.len() - 1)
        }
    }
}

/// Positions as mathematical integers.
pub open spec fn positions(kept: Seq<usize>) -> Seq<int> {
    kept.map_values(|at: usize| at as int)
}

/// `key` is among the texts of `seen`.
pub open spec fn is_among(seen: Seq<String>, key: Seq<char>) -> bool {
    exists|k: int| 0 <= k < seen.len() && #[trigger] seen[k]@ == key
}

/// `key` occurs in `keys` before position `end`.
pub open spec fn occurs_before(keys: Seq<Seq<char>>, end: int, key: Seq<char>) -> bool {
    exists|j: int| 0 <= j < end && #[trigger] keys[j] == key
}

/// Whether `key` is among `seen`.
fn is_seen(seen: &Vec<String>, key: &String) -> (found: bool)
    ensures
        found == is_among(seen@, key@),
{
    let mut k: usize = 0;
    while k < seen.len()
        invariant
            0 <= k <= seen.len(),
            forall|j: int| 0 <= j < k ==> #[trigger] seen[j]@ != key@,
        decreases seen.len() - k,
    {
        if seen[k] == *key {
            return true;
        }
        k += 1;
    }
    false
}

/// Sorts the positions of the records into those whose key was not registered
/// before and those that repeat a key, each in the order of registration.
fn sort_registrations<H>(records: &Vec<ServerFunction<H>>) -> (sorted: (Vec<usize>, Vec<usize>))
    ensures
        positions(sorted.0@) == first_registrations(route_keys(records@)),
        positions(sorted.1@) == repeated_registrations(route_keys(records@)),
{
    let mut kept: Vec<usize> = Vec::new();
    let mut passed: Vec<usize> = Vec::new();
    let mut seen: Vec<String> = Vec::new();
    let mut i: usize = 0;
    assert(positions(kept@) =~= first_registrations(route_keys(records@).take(0)));
    assert(positions(passed@) =~= repeated_registrations(route_keys(records@).take(0)));
    while i < records.len()
        invariant
            0 <= i <= records.len(),
            positions(kept@) == first_registrations(route_keys(records@).take(i as int)),
            positions(passed@) == repeated_registrations(route_keys(records@).take(i as int)),
            forall|key: Seq<char>| #[trigger]
                is_among(seen@, key) <==> occurs_before(route_keys(records@), i as int, key),
        decreases records.len() - i,
    {
        let key = records[i].key();
        let ghost keys = route_keys(records@);
        let ghost so_far = keys.take(i + 1);
        let ghost kept_before = kept@;
        let ghost passed_before = passed@;
        let ghost seen_before = seen@;
        proof {
            assert(so_far.drop_last() =~= keys.take(i as int));
            assert(key@ == keys[i as int]);
        }
        let repeated = is_seen(&seen, &key);
        proof {
            if is_first_registration(so_far, i as int) {
                if occurs_before(keys, i as int, key@) {
                    let j = choose|j: int| 0 <= j < i && #[trigger] keys[j] == key@;
                    assert(so_far[j] == so_far[i as int]);
                }
            } else {
                let j = choose|j: int| 0 <= j < i && so_far[j] == so_far[i as int];
                assert(keys[j] == key@);
            }
            assert(repeated == !is_first_registration(so_far, i as int));
        }
        if !repeated {
            seen.push(key);
            kept.push(i);
            proof {
                assert(positions(kept@) =~= positions(kept_before).push(i as int));
                assert(seen@[seen_before.len() as int]@ == keys[i as int]);
            }
        } else {
            passed.push(i);
            assert(positions(passed@) =~= positions(passed_before).push(i as int));
        }
        proof {
            assert forall|other: Seq<char>| #[trigger]
                is_among(seen@, other) <==> occurs_before(keys, i + 1, other) by {
                if is_among(seen@, other) {
                    let k = choose|k: int| 0 <= k < seen@.len() && #[trigger] seen@[k]@ == other;
                    if k < seen_before.len() {
                        assert(seen_before[k]@ == other);
                        assert(is_among(seen_before, other));
                        let j = choose|j: int| 0 <= j < i && #[trigger] keys[j] == other;
                        assert(keys[j] == other);
                    } else {
                        assert(keys[i as int] == other);
                    }
                }
                if occurs_before(keys, i + 1, other) {
                    let j = choose|j: int| 0 <= j < i + 1 && #[trigger] keys[j] == other;
                    if j < i {
                        assert(occurs_before(keys, i as int, other));
                        assert(is_among(seen_before, other));
                        let k = choose|k: int|
                            0 <= k < seen_before.len() && #[trigger] seen_before[k]@ == other;
                        assert(seen@[k]@ == other);
                    } else if repeated {
                        assert(is_among(seen_before, key@));
                    } else {
                        assert(seen@[seen_before.len() as int]@ == other);
                    }
                }
            }
        }
        i += 1;
    }
    assert(route_keys(records@).take(i as int) =~= route_keys(records@));
    (kept, passed)
}

/// The records that a router is built from: the positions of those records
/// whose key was not registered before, in the order of registration. Each
/// such record gets its route; a record that repeats a key gets none.
pub fn routes_to_register<H>(records: &Vec<ServerFunction<H>>) -> (kept: Vec<usize>)
    ensures
        positions(kept@) == first_registrations(route_keys(records@)),
{
    sort_registrations(records).0
}

/// The records that are passed over when a router is built: the positions of
/// those records whose key was registered before, in the order of
/// registration. Each of them is worth a line in the log and has no other
/// effect.
pub fn passed_over_registrations<H>(records: &Vec<ServerFunction<H>>) -> (passed: Vec<usize>)
    ensures
        positions(passed@) == repeated_registrations(route_keys(records@)),
{
    sort_registrations(records).1
}

/// One route of a router: a method and a path, and the handler that answers
/// them.
pub struct Route<R> {
    pub method: Method,
    pub path: &'static str,
    pub handler: R,
}

/// `route` is the route that `record` asks for, with a handler that the
/// record's factory made.
pub open spec fn is_route_of<H: Fn() -> R, R>(route: Route<R>, record: ServerFunction<H>) -> bool {
    &&& method_text(route.method) == record.method_name()
    &&& route.path@ == record.path_text()
    &&& call_ensures(record.handler_factory(), (), route.handler)
}

/// The routes of a router, from the records of the registry: one route for
/// each key, in the order in which the keys were first registered, each with
/// the handler that the first record of its key makes. The factory of a record
/// that repeats a key is not called.
pub fn register_server_functions<H: Fn() -> R, R>(records: &Vec<ServerFunction<H>>) -> (routes: Vec<
    Route<R>,
>)
    requires
        forall|i: int|
            0 <= i < records.len() ==> call_requires(
                (#[trigger] records[i]).handler_factory(),
                (),
            ),
    ensures
        routes.len() == first_registrations(route_keys(records@)).len(),
        forall|k: int|
            0 <= k < routes.len() ==> is_route_of(
                #[trigger] routes[k],
                records[first_registrations(route_keys(records@))[k]],
            ),
{
    let kept = routes_to_register(records);
    proof {
        lemma_first_registrations(route_keys(records@));
    }
    let mut routes: Vec<Route<R>> = Vec::new();
    let mut k: usize = 0;
    while k < kept.len()
        invariant
            0 <= k <= kept.len(),
            routes.len() == k,
            positions(kept@) == first_registrations(route_keys(records@)),
            forall|j: int|
                0 <= j < kept.len() ==> is_first_registration(
                    route_keys(records@),
                    #[trigger] positions(kept@)[j],
                ),
            forall|i: int|
                0 <= i < records.len() ==> call_requires(
                    (#[trigger] records[i]).handler_factory(),
                    (),
                ),
            forall|j: int|
                0 <= j < k ==> is_route_of(#[trigger] routes[j], records[kept[j] as int]),
        decreases kept.len() - k,
    {
        let at = kept[k];
        assert(is_first_registration(route_keys(records@), positions(kept@)[k as int]));
        let record = &records[at];
        let route = Route {
            method: record.method(),
            path: record.path(),
            handler: record.method_router(),
        };
        routes.push(route);
        k += 1;
    }
    assert forall|j: int| 0 <= j < routes.len() implies is_route_of(
        #[trigger] routes[j],
        records[first_registrations(route_keys(records@))[j]],
    ) by {
        assert(positions(kept@)[j] == kept[j] as int);
    }
    routes
}

/// Whether a position is a first registration does not depend on what was
/// registered after it.
pub proof fn lemma_first_registration_in_prefix(keys: Seq<Seq<char>>)
    requires
        keys.len() > 0,
    ensures
        forall|at: int|
            is_first_registration(keys.drop_last(), at) <==> at < keys.len() - 1
                && is_first_registration(keys, at),
{
    let shorter = keys.drop_last();
    assert forall|at: int| is_first_registration(shorter, at) <==> at < keys.len() - 1
        && is_first_registration(keys, at) by {
        if 0 <= at < keys.len() - 1 {
            assert(forall|j: int| 0 <= j <= at ==> shorter[j] == keys[j]);
        }
    }
}

/// What the chosen positions are: each is a first registration, they rise,
/// and no first registration is left out.
pub proof fn lemma_first_registrations(keys: Seq<Seq<char>>)
    ensures
        forall|k: int|
            0 <= k < first_registrations(keys).len() ==> is_first_registration(
                keys,
                #[trigger] first_registrations(keys)[k],
            ),
        forall|a: int, b: int|
            0 <= a < b < first_registrations(keys).len() ==> first_registrations(keys)[a]
                < first_registrations(keys)[b],
        forall|at: int| #[trigger]
            is_first_registration(keys, at) ==> first_registrations(keys).contains(at),
    decreases keys.len(),
{
    if keys.len() > 0 {
        let shorter = keys.drop_last();
        let earlier = first_registrations(shorter);
        let kept = first_registrations(keys);
        let newest = keys.len() - 1;
        lemma_first_registrations(shorter);
        lemma_first_registration_in_prefix(keys);
        assert forall|k: int| 0 <= k < kept.len() implies is_first_registration(
            keys,
            #[trigger] kept[k],
        ) by {
            if k < earlier.len() {
                assert(kept[k] == earlier[k]);
                assert(is_first_registration(shorter, earlier[k]));
            }
        }
        assert forall|a: int, b: int| 0 <= a < b < kept.len() implies kept[a] < kept[b] by {
            assert(is_first_registration(shorter, earlier[a]));
        }
        assert forall|at: int| #[trigger] is_first_registration(keys, at) implies kept.contains(
            at,
        ) by {
            if at < newest {
                assert(is_first_registration(shorter, at));
                let k = choose|k: int| 0 <= k < earlier.len() && earlier[k] == at;
                assert(kept[k] == at);
            } else {
                assert(kept[kept.len() - 1] == at);
            }
        }
    }
}

/// What is passed over: exactly the positions that are no first registration,
/// in rising order. So every position is either chosen or passed over.
pub proof fn law_passed_over_are_the_repeats(keys: Seq<Seq<char>>)
    ensures
        forall|k: int|
            0 <= k < repeated_registrations(keys).len() ==> {
                &&& 0 <= #[trigger] repeated_registrations(keys)[k] < keys.len()
                &&& !is_first_registration(keys, repeated_registrations(keys)[k])
            },
        forall|a: int, b: int|
            0 <= a < b < repeated_registrations(keys).len() ==> repeated_registrations(keys)[a]
                < repeated_registrations(keys)[b],
        forall|at: int|
            0 <= at < keys.len() && !(#[trigger] is_first_registration(keys, at))
                ==> repeated_registrations(keys).contains(at),
        first_registrations(keys).len() + repeated_registrations(keys).len() == keys.len(),
    decreases keys.len(),
{
    if keys.len() > 0 {
        let shorter = keys.drop_last();
        let earlier = repeated_registrations(shorter);
        let passed = repeated_registrations(keys);
        let newest = keys.len() - 1;
        law_passed_over_are_the_repeats(shorter);
        lemma_first_registration_in_prefix(keys);
        assert forall|k: int| 0 <= k < passed.len() implies 0 <= #[trigger] passed[k] < keys.len()
            && !is_first_registration(keys, passed[k]) by {
            if k < earlier.len() {
                assert(passed[k] == earlier[k]);
                assert(!is_first_registration(shorter, earlier[k]));
            }
        }
        assert forall|a: int, b: int| 0 <= a < b < passed.len() implies passed[a] < passed[b] by {
            assert(0 <= earlier[a] < shorter.len());
        }
        assert forall|at: int|
            0 <= at < keys.len() && !(#[trigger] is_first_registration(keys, at))
                implies passed.contains(at) by {
            if at < newest {
                assert(!is_first_registration(shorter, at));
                let k = choose|k: int| 0 <= k < earlier.len() && earlier[k] == at;
                assert(passed[k] == at);
            } else {
                assert(passed[passed.len() - 1] == at);
            }
        }
    }
}

/// The position at which the key of position `at` was registered first.
pub proof fn lemma_registered_first(keys: Seq<Seq<char>>, at: int) -> (first: int)
    requires
        0 <= at < keys.len(),
    ensures
        first <= at,
        keys[first] == keys[at],
        is_first_registration(keys, first),
    decreases at,
{
    if is_first_registration(keys, at) {
        at
    } else {
        let earlier = choose|earlier: int| 0 <= earlier < at && keys[earlier] == keys[at];
        lemma_registered_first(keys, earlier)
    }
}

/// The route at place `place` of the chosen ones is a route for `key`.
pub open spec fn is_route_for(keys: Seq<Seq<char>>, place: int, key: Seq<char>) -> bool {
    &&& 0 <= place < first_registrations(keys).len()
    &&& 0 <= first_registrations(keys)[place] < keys.len()
    &&& keys[first_registrations(keys)[place]] == key
}

/// However often a key was registered, the router gets exactly one route for
/// it, and that route belongs to the record that registered the key first.
pub proof fn law_one_route_per_key(keys: Seq<Seq<char>>, at: int) -> (place: int)
    requires
        0 <= at < keys.len(),
    ensures
        is_route_for(keys, place, keys[at]),
        first_registrations(keys)[place] <= at,
        is_first_registration(keys, first_registrations(keys)[place]),
        forall|other: int| #[trigger] is_route_for(keys, other, keys[at]) ==> other == place,
{
    let kept = first_registrations(keys);
    lemma_first_registrations(keys);
    let first = lemma_registered_first(keys, at);
    assert(kept.contains(first));
    let place = choose|place: int| 0 <= place < kept.len() && kept[place] == first;
    assert forall|other: int| #[trigger] is_route_for(keys, other, keys[at]) implies other
        == place by {
        assert(is_first_registration(keys, kept[other]));
        assert(is_first_registration(keys, kept[place]));
        if kept[other] < kept[place] {
            assert(keys[kept[other]] == keys[kept[place]]);
        } else if kept[place] < kept[other] {
            assert(keys[kept[place]] == keys[kept[other]]);
        }
        if other < place {
            assert(kept[other] < kept[place]);
        } else if place < other {
            assert(kept[place] < kept[other]);
        }
    }
    place
}

} // verus!
