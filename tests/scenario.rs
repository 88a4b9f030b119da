use bimdb::config::ValueSetConfig;
use bimdb::coupling::{group_couplings, member_rows, read_coupling_form, resolve_members, unknown_vehicles_message};
use bimdb::form::parse_form;
use bimdb::reply::{couplings_location, redirect, return_400, vehicles_location};
use bimdb::request::list_request;
use bimdb::router::{dispatch, Dispatch, Method, Page};
use bimdb::vehicle::read_vehicle_form;

#[test]
fn add_vehicles_then_couple_them() {
    // adding vehicle 101
    assert!(matches!(dispatch(&Method::Post, b"/add", b""), Dispatch::Serve(Page::Add)));
    let form = parse_form(b"company=ACME&veh-number=101&type-code=T1&veh-class=Tram&other-data=%7B%7D").unwrap();
    let v = read_vehicle_form(&form, &ValueSetConfig::unrestricted()).unwrap();
    assert_eq!((v.company.as_str(), v.vehicle_number.as_str()), ("ACME", "101"));
    let reply = redirect(vehicles_location(""));
    assert_eq!(reply.status, 302);

    // the list is filtered to the company
    assert!(matches!(dispatch(&Method::Get, b"/", b""), Dispatch::Serve(Page::Index)));
    let list = list_request(&parse_form(b"company=ACME").unwrap(), 20).unwrap();
    assert_eq!(list.company.as_deref(), Some("ACME"));

    // coupling 101 with a vehicle 102 that does not exist yet
    assert!(matches!(dispatch(&Method::Post, b"/coupling-add", b""), Dispatch::Serve(Page::CouplingAdd)));
    let cf = read_coupling_form(&parse_form(b"company=ACME&vehicles=101%0A102").unwrap()).unwrap();
    let unknown = resolve_members(&cf.vehicle_numbers, &[Some(1), None]).unwrap_err();
    let reply = return_400(&unknown_vehicles_message(&unknown));
    assert_eq!(reply.status, 400);
    assert_eq!(reply.body, "400 Bad Request: unknown vehicle numbers:102");

    // once 102 exists the same request goes through
    let ids = resolve_members(&cf.vehicle_numbers, &[Some(1), Some(2)]).unwrap();
    let rows = member_rows(&ids);
    let reply = redirect(couplings_location(""));
    assert_eq!((reply.status, reply.location.as_deref()), (302, Some("/couplings")));

    // the coupling list shows one coupling, members in the given order
    let listed: Vec<(i64, i64, String)> = rows
        .iter()
        .map(|r| (7, r.vehicle_id, if r.vehicle_id == 1 { "101" } else { "102" }.to_string()))
        .collect();
    let couplings = group_couplings(&[7], &listed);
    assert_eq!(couplings.len(), 1);
    let nums: Vec<&str> = couplings[0].vehicles.iter().map(|m| m.veh_number.as_str()).collect();
    assert_eq!(nums, vec!["101", "102"]);
}
