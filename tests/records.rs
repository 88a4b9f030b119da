use bimdb::config::{permits, DbConfig, ValueSetConfig};
use bimdb::coupling::{
    row_found, group_couplings, member_rows, read_coupling_form, resolve_members,
    unknown_vehicles_message, CouplingFormError, MemberRow,
};
use bimdb::export::{export_records, ExportVehicle};
use bimdb::form::parse_form;
use bimdb::request::{export_company, list_request, parse_i64, required_id, RequestError};
use bimdb::vehicle::{read_vehicle_form, Field, VehicleFormError};

fn sets(classes: &[&str], sources: &[&str]) -> ValueSetConfig {
    ValueSetConfig {
        vehicle_classes: classes.iter().map(|s| s.to_string()).collect(),
        power_sources: sources.iter().map(|s| s.to_string()).collect(),
    }
}

const FULL: &[u8] = b"company=ACME&veh-number=101&type-code=T1&veh-class=Tram&other-data=%7B%7D";

#[test]
fn vehicle_form_reads_all_fields() {
    let body = [FULL, b"&power-source=overhead%0D%0Abattery%0A%0Aoverhead&power-source=+diesel+&depot=North&manufacturer=&veh-number=102"].concat();
    let form = parse_form(&body).unwrap();
    let v = read_vehicle_form(&form, &ValueSetConfig::unrestricted()).unwrap();
    assert_eq!(v.company, "ACME");
    assert_eq!(v.vehicle_number, "102");
    assert_eq!(v.type_code, "T1");
    assert_eq!(v.vehicle_class, "Tram");
    assert_eq!(v.power_sources, vec!["overhead", "battery", "diesel"]);
    assert_eq!(v.depot.as_deref(), Some("North"));
    assert_eq!(v.manufacturer, None);
    assert_eq!(v.in_service_since, None);
    assert!(v.other_data.is_object());
}

#[test]
fn vehicle_form_missing_and_empty_fields() {
    let form = parse_form(b"veh-number=1").unwrap();
    let e = read_vehicle_form(&form, &ValueSetConfig::unrestricted()).unwrap_err();
    assert_eq!(e, VehicleFormError::Missing(Field::Company));
    assert_eq!(e.message(), "field 'company' is required");
    let form = parse_form(b"company=A&veh-number=").unwrap();
    let e = read_vehicle_form(&form, &ValueSetConfig::unrestricted()).unwrap_err();
    assert_eq!(e, VehicleFormError::Empty(Field::VehicleNumber));
    let form = parse_form(b"company=A&veh-number=1&type-code=T&veh-class=C").unwrap();
    let e = read_vehicle_form(&form, &ValueSetConfig::unrestricted()).unwrap_err();
    assert_eq!(e, VehicleFormError::Missing(Field::OtherData));
}

#[test]
fn vehicle_form_other_data_must_be_json_object() {
    let base = b"company=A&veh-number=1&type-code=T&veh-class=C&other-data=";
    let form = parse_form(&[base.as_slice(), b"%7Bnope"].concat()).unwrap();
    assert_eq!(read_vehicle_form(&form, &ValueSetConfig::unrestricted()).unwrap_err(), VehicleFormError::OtherDataNotJson);
    let form = parse_form(&[base.as_slice(), b"%5B1%5D"].concat()).unwrap();
    assert_eq!(read_vehicle_form(&form, &ValueSetConfig::unrestricted()).unwrap_err(), VehicleFormError::OtherDataNotObject);
}

#[test]
fn class_outside_allowed_set_is_rejected() {
    let body = b"company=ACME&veh-number=101&type-code=T1&veh-class=Bus&other-data=%7B%7D";
    let form = parse_form(body).unwrap();
    let e = read_vehicle_form(&form, &sets(&["Tram"], &[])).unwrap_err();
    assert_eq!(e, VehicleFormError::ClassNotAllowed);
    let v = read_vehicle_form(&form, &sets(&[], &[])).unwrap();
    assert_eq!(v.vehicle_class, "Bus");
}

#[test]
fn power_source_outside_allowed_set_is_rejected() {
    let body = [FULL, b"&power-source=steam"].concat();
    let form = parse_form(&body).unwrap();
    let e = read_vehicle_form(&form, &sets(&[], &["overhead"])).unwrap_err();
    assert_eq!(e, VehicleFormError::PowerSourceNotAllowed);
    assert!(read_vehicle_form(&form, &sets(&[], &["overhead", "steam"])).is_ok());
}

#[test]
fn allow_list_membership() {
    let list = vec!["a".to_string()];
    assert!(permits(&list, &"a".to_string()));
    assert!(!permits(&list, &"b".to_string()));
    assert!(permits(&[], &"b".to_string()));
}

#[test]
fn negative_page_is_refused() {
    let q = parse_form(b"page=-1").unwrap();
    assert_eq!(list_request(&q, 20).unwrap_err(), RequestError::NegativePage);
    let q = parse_form(b"page=x").unwrap();
    assert_eq!(list_request(&q, 20).unwrap_err(), RequestError::InvalidPage);
    let q = parse_form(b"page=9223372036854775807").unwrap();
    assert_eq!(list_request(&q, 20).unwrap_err(), RequestError::PageTooLarge);
}

#[test]
fn list_request_defaults_and_filter() {
    let q = parse_form(b"").unwrap();
    let l = list_request(&q, 20).unwrap();
    assert_eq!((l.page, l.offset, l.limit, l.company), (0, 0, 20, None));
    let q = parse_form(b"page=3&company=+ACME+&page=2").unwrap();
    let l = list_request(&q, 20).unwrap();
    assert_eq!((l.page, l.offset), (2, 40));
    assert_eq!(l.company.as_deref(), Some("ACME"));
    let q = parse_form(b"page=%2B1").unwrap();
    assert_eq!(list_request(&q, 20).unwrap().page, 1);
}

#[test]
fn ids_and_company_parameters() {
    assert_eq!(required_id(&parse_form(b"id=42").unwrap()), Ok(42));
    assert_eq!(required_id(&parse_form(b"id=-7").unwrap()), Ok(-7));
    assert_eq!(required_id(&parse_form(b"x=1").unwrap()), Err(RequestError::MissingId));
    assert_eq!(required_id(&parse_form(b"id=4x").unwrap()), Err(RequestError::InvalidId));
    assert_eq!(required_id(&parse_form(b"id=").unwrap()), Err(RequestError::InvalidId));
    assert_eq!(export_company(&parse_form(b"company=ACME").unwrap()).unwrap(), "ACME");
    assert_eq!(export_company(&parse_form(b"").unwrap()).unwrap_err(), RequestError::MissingCompany);
    assert_eq!(RequestError::NegativePage.message(), "'page' must be >= 0");
}

#[test]
fn coupling_form_reading() {
    let f = read_coupling_form(&parse_form(b"company=ACME&vehicles=+101%0D%0A%0A102+").unwrap()).unwrap();
    assert_eq!(f.company, "ACME");
    assert_eq!(f.vehicle_numbers, vec!["101", "102"]);
    let e = read_coupling_form(&parse_form(b"vehicles=1").unwrap()).unwrap_err();
    assert_eq!(e, CouplingFormError::MissingCompany);
    let e = read_coupling_form(&parse_form(b"company=&vehicles=1").unwrap()).unwrap_err();
    assert_eq!(e, CouplingFormError::EmptyCompany);
    let e = read_coupling_form(&parse_form(b"company=A").unwrap()).unwrap_err();
    assert_eq!(e, CouplingFormError::MissingVehicles);
    let e = read_coupling_form(&parse_form(b"company=A&vehicles=").unwrap()).unwrap_err();
    assert_eq!(e, CouplingFormError::EmptyVehicles);
    assert_eq!(e.message(), "field 'vehicles' must not be empty");
}

#[test]
fn coupling_replace_keeps_given_order() {
    let numbers = vec!["X".to_string(), "Y".to_string(), "Z".to_string()];
    let ids = resolve_members(&numbers, &[Some(30), Some(10), Some(20)]).unwrap();
    assert_eq!(ids, vec![30, 10, 20]);
    let rows = member_rows(&ids);
    assert_eq!(
        rows,
        vec![
            MemberRow { vehicle_id: 30, position: 1 },
            MemberRow { vehicle_id: 10, position: 2 },
            MemberRow { vehicle_id: 20, position: 3 },
        ]
    );
}

#[test]
fn coupling_with_unresolved_number_is_refused() {
    let numbers = vec!["X".to_string(), "Q".to_string(), "Z".to_string(), "R".to_string()];
    let unknown = resolve_members(&numbers, &[Some(1), None, Some(3), None]).unwrap_err();
    assert_eq!(unknown, vec!["Q", "R"]);
    assert_eq!(unknown_vehicles_message(&unknown), "unknown vehicle numbers:QR");
}

#[test]
fn coupling_list_grouping() {
    let rows = vec![
        (1, 11, "101".to_string()),
        (1, 12, "102".to_string()),
        (2, 13, "103".to_string()),
        (3, 11, "101".to_string()),
    ];
    let cs = group_couplings(&[1, 2, 3, 4], &rows);
    assert_eq!(cs.len(), 4);
    assert_eq!(cs[0].id, 1);
    let nums: Vec<&str> = cs[0].vehicles.iter().map(|v| v.veh_number.as_str()).collect();
    assert_eq!(nums, vec!["101", "102"]);
    assert_eq!(cs[2].vehicles[0].id, 11);
    assert_eq!(cs[3].id, 4);
    assert!(cs[3].vehicles.is_empty());
    assert!(group_couplings(&[], &rows).is_empty());
}

#[test]
fn row_found_only_when_rows_affected() {
    assert!(!row_found(0));
    assert!(row_found(1));
}

#[test]
fn default_database_port() {
    assert_eq!(DbConfig::default_port(), 5432);
}

fn vehicle(id: i64, number: &str) -> ExportVehicle {
    ExportVehicle {
        id,
        veh_number: number.to_string(),
        type_code: "T1".to_string(),
        veh_class: "Tram".to_string(),
        in_service_since: Some("2001-02-03".to_string()),
        out_of_service_since: None,
        manufacturer: None,
        depot: Some("North".to_string()),
        other_data: "{}".to_string(),
    }
}

#[test]
fn export_without_couplings_or_power_sources_has_empty_lists() {
    let recs = export_records(&[vehicle(5, "101")], &[(6, "x".to_string())], &[]);
    assert_eq!(recs.len(), 1);
    assert_eq!(recs[0].number, "101");
    assert!(recs[0].fixed_coupling.is_empty());
    assert!(recs[0].power_sources.is_empty());
    assert_eq!(recs[0].depot.as_deref(), Some("North"));
    assert_eq!(recs[0].other_data, "{}");
}

#[test]
fn export_merges_by_vehicle_id() {
    let coupling_rows = vec![(1, "101".to_string()), (1, "102".to_string()), (2, "101".to_string()), (2, "102".to_string())];
    let power_rows = vec![(1, "battery".to_string()), (1, "overhead".to_string()), (1, "battery".to_string())];
    let recs = export_records(&[vehicle(1, "101"), vehicle(2, "102")], &coupling_rows, &power_rows);
    assert_eq!(recs[0].fixed_coupling, vec!["101", "102"]);
    assert_eq!(recs[0].power_sources, vec!["battery", "overhead"]);
    assert_eq!(recs[1].fixed_coupling, vec!["101", "102"]);
    assert!(recs[1].power_sources.is_empty());
}

#[test]
fn integer_parsing_edges() {
    assert_eq!(parse_i64("0"), Some(0));
    assert_eq!(parse_i64("+12"), Some(12));
    assert_eq!(parse_i64("-007"), Some(-7));
    assert_eq!(parse_i64("9223372036854775807"), Some(i64::MAX));
    assert_eq!(parse_i64("-9223372036854775808"), Some(i64::MIN));
    assert_eq!(parse_i64("9223372036854775808"), None);
    assert_eq!(parse_i64("-9223372036854775809"), None);
    assert_eq!(parse_i64("99999999999999999999x"), None);
    assert_eq!(parse_i64(""), None);
    assert_eq!(parse_i64("+"), None);
    assert_eq!(parse_i64("-"), None);
    assert_eq!(parse_i64(" 1"), None);
    assert_eq!(parse_i64("1a"), None);
    assert_eq!(parse_i64("\u{663}"), None);
}
