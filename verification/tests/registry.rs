use fullstack_gateway::pool::worker_count;
use fullstack_gateway::registry::passed_over_registrations;
use fullstack_gateway::registry::register_server_functions;
use fullstack_gateway::registry::routes_to_register;
use fullstack_gateway::registry::ServerFunction;
use http::Method;

fn record(method: Method, path: &'static str, id: u32) -> ServerFunction<u32> {
    ServerFunction::new(method, path, id)
}

fn make_seven() -> u32 {
    7
}

#[test]
fn a_record_keeps_what_it_was_made_with() {
    let function = ServerFunction::new(Method::POST, "/api/save", 11u32);
    assert_eq!(function.path(), "/api/save");
    assert_eq!(function.method(), Method::POST);
    assert_eq!(*function.handler(), 11);
    assert_eq!(function.key(), "POST /api/save");
}

#[test]
fn a_key_is_method_space_path() {
    assert_eq!(record(Method::GET, "/", 0).key(), "GET /");
    assert_eq!(record(Method::DELETE, "/api/item/{id}", 0).key(), "DELETE /api/item/{id}");
    assert_eq!(record(Method::from_bytes(b"PURGE").unwrap(), "/cache", 0).key(), "PURGE /cache");
    assert_eq!(record(Method::GET, "", 0).key(), "GET ");
}

#[test]
fn method_router_makes_the_handler() {
    let function = ServerFunction::new(Method::GET, "/seven", make_seven as fn() -> u32);
    assert_eq!(function.method_router(), 7);
    let counted = ServerFunction::new(Method::GET, "/nine", || 9u8);
    assert_eq!(counted.method_router(), 9);
}

#[test]
fn duplicate_routes_collapse_to_the_first() {
    let records = vec![
        record(Method::GET, "/a", 1),
        record(Method::POST, "/a", 2),
        record(Method::GET, "/a", 3),
        record(Method::GET, "/b", 4),
        record(Method::POST, "/a", 5),
    ];
    let kept = routes_to_register(&records);
    assert_eq!(kept, vec![0, 1, 3]);
    let handlers: Vec<u32> = kept.iter().map(|&at| *records[at].handler()).collect();
    assert_eq!(handlers, vec![1, 2, 4]);
}

#[test]
fn two_equal_records_give_one_route() {
    let records = vec![record(Method::GET, "/a", 1), record(Method::GET, "/a", 2)];
    assert_eq!(routes_to_register(&records), vec![0]);
}

#[test]
fn distinct_records_all_get_a_route() {
    let records = vec![
        record(Method::GET, "/a", 1),
        record(Method::GET, "/b", 2),
        record(Method::PUT, "/a", 3),
    ];
    assert_eq!(routes_to_register(&records), vec![0, 1, 2]);
    assert_eq!(routes_to_register(&Vec::<ServerFunction<u32>>::new()), Vec::<usize>::new());
}

#[test]
fn many_repeats_of_one_key_give_one_route() {
    let records = vec![
        record(Method::GET, "/a", 1),
        record(Method::GET, "/a", 2),
        record(Method::GET, "/a", 3),
        record(Method::GET, "/a ", 4),
        record(Method::GET, "/a", 5),
    ];
    assert_eq!(routes_to_register(&records), vec![0, 3]);
}

#[test]
fn the_pool_has_at_least_one_worker() {
    assert_eq!(worker_count(None), 1);
    assert_eq!(worker_count(Some(0)), 1);
    assert_eq!(worker_count(Some(1)), 1);
    assert_eq!(worker_count(Some(8)), 8);
    assert_eq!(worker_count(Some(usize::MAX)), usize::MAX);
}

#[test]
fn registering_builds_one_route_for_each_key() {
    let records = vec![
        ServerFunction::new(Method::GET, "/a", (|| 1u32) as fn() -> u32),
        ServerFunction::new(Method::POST, "/a", (|| 2u32) as fn() -> u32),
        ServerFunction::new(Method::GET, "/a", (|| 3u32) as fn() -> u32),
        ServerFunction::new(Method::GET, "/b", (|| 4u32) as fn() -> u32),
    ];
    let routes = register_server_functions(&records);
    let seen: Vec<(&str, &str, u32)> =
        routes.iter().map(|r| (r.method.as_str(), r.path, r.handler)).collect();
    assert_eq!(seen, vec![("GET", "/a", 1), ("POST", "/a", 2), ("GET", "/b", 4)]);
}

#[test]
fn registering_does_not_call_the_factory_of_a_repeated_key() {
    fn first() -> &'static str {
        "first"
    }
    fn never() -> &'static str {
        panic!("the factory of a repeated key was called")
    }
    let records = vec![
        ServerFunction::new(Method::GET, "/a", first as fn() -> &'static str),
        ServerFunction::new(Method::GET, "/a", never as fn() -> &'static str),
    ];
    let routes = register_server_functions(&records);
    assert_eq!(routes.len(), 1);
    assert_eq!(routes[0].handler, "first");
    assert!(register_server_functions(&Vec::<ServerFunction<fn() -> u8>>::new()).is_empty());
}

#[test]
fn repeated_registrations_are_passed_over() {
    let records = vec![
        record(Method::GET, "/a", 1),
        record(Method::POST, "/a", 2),
        record(Method::GET, "/a", 3),
        record(Method::GET, "/b", 4),
        record(Method::POST, "/a", 5),
    ];
    assert_eq!(passed_over_registrations(&records), vec![2, 4]);
    assert_eq!(routes_to_register(&records), vec![0, 1, 3]);
}

#[test]
fn nothing_is_passed_over_among_distinct_records() {
    let records = vec![record(Method::GET, "/a", 1), record(Method::GET, "/b", 2)];
    assert_eq!(passed_over_registrations(&records), Vec::<usize>::new());
    assert_eq!(
        passed_over_registrations(&Vec::<ServerFunction<u32>>::new()),
        Vec::<usize>::new()
    );
    let twice = vec![record(Method::GET, "/a", 1), record(Method::GET, "/a", 2)];
    assert_eq!(passed_over_registrations(&twice), vec![1]);
}
