//! Reading and validating the vehicle form.

use vstd::prelude::*;

use crate::config::{contains_text, permits, permitted, ValueSetConfig};
use crate::request::last_value;
use crate::text::{lines_of, nonblank_lines};
use crate::value_multiset::{views, ValueMultiset};

verus! {

#[verifier::external_type_specification]
#[verifier::external_body]
pub struct ExJsonValue(serde_json::Value);

/// Whether the text is one well-formed JSON document.
pub uninterp spec fn json_valid(s: Seq<char>) -> bool;

/// Relies on `serde_json::from_str` into a `serde_json::Value`: parses the
/// text as one JSON document.
#[verifier::external_body]
fn parse_json(s: &str) -> (r: Option<serde_json::Value>)
    ensures
        r is Some <==> json_valid(s@),
{
    serde_json::from_str::<serde_json::Value>(s).ok()
}

/// Whether the text is one JSON document whose value is an object.
pub uninterp spec fn json_object_text(s: Seq<char>) -> bool;

/// Relies on `serde_json::from_str` into a `serde_json::Map`: parses the
/// text as one JSON document holding an object.
#[verifier::external_body]
fn parse_json_object(s: &str) -> (r: Option<serde_json::Value>)
    ensures
        r is Some <==> json_object_text(s@),
{
    serde_json::from_str::<serde_json::Map<String, serde_json::Value>>(s).ok().map(
        serde_json::Value::Object,
    )
}

/// A field of the vehicle form that must be given and not be empty.
#[derive(PartialEq, Eq, Structural, Clone, Copy, Debug)]
pub enum Field {
    Company,
    VehicleNumber,
    TypeCode,
    VehicleClass,
    OtherData,
}

/// The form key of a required field.
pub open spec fn field_key(f: Field) -> Seq<char> {
    match f {
        Field::Company => "company"@,
        Field::VehicleNumber => "veh-number"@,
        Field::TypeCode => "type-code"@,
        Field::VehicleClass => "veh-class"@,
        Field::OtherData => "other-data"@,
    }
}

fn key_of(f: Field) -> (r: &'static str)
    ensures
        r@ == field_key(f),
{
    match f {
        Field::Company => "company",
        Field::VehicleNumber => "veh-number",
        Field::TypeCode => "type-code",
        Field::VehicleClass => "veh-class",
        Field::OtherData => "other-data",
    }
}

/// Why a vehicle form is refused.
#[derive(PartialEq, Eq, Structural, Clone, Copy, Debug)]
pub enum VehicleFormError {
    Missing(Field),
    Empty(Field),
    ClassNotAllowed,
    PowerSourceNotAllowed,
    OtherDataNotJson,
    OtherDataNotObject,
}

/// The reason given to the client for each error.
pub open spec fn vehicle_error_text(e: VehicleFormError) -> Seq<char> {
    match e {
        VehicleFormError::Missing(f) => "field '"@ + field_key(f) + "' is required"@,
        VehicleFormError::Empty(f) => "field '"@ + field_key(f) + "' must not be empty"@,
        VehicleFormError::ClassNotAllowed => "field 'veh-class' is not one of the allowed values"@,
        VehicleFormError::PowerSourceNotAllowed => "one of the 'power-source' values is not one of the allowed values"@,
        VehicleFormError::OtherDataNotJson => "field 'other-data' is not valid JSON"@,
        VehicleFormError::OtherDataNotObject => "field 'other-data' does not contain a JSON object"@,
    }
}

impl VehicleFormError {
    /// The reason given to the client.
    pub fn message(&self) -> (r: String)
        ensures
            r@ == vehicle_error_text(*self),
    {
        match self {
            VehicleFormError::Missing(f) => String::from_str("field '").concat(key_of(*f)).concat(
                "' is required",
            ),
            VehicleFormError::Empty(f) => String::from_str("field '").concat(key_of(*f)).concat(
                "' must not be empty",
            ),
            VehicleFormError::ClassNotAllowed => String::from_str(
                "field 'veh-class' is not one of the allowed values",
            ),
            VehicleFormError::PowerSourceNotAllowed => String::from_str(
                "one of the 'power-source' values is not one of the allowed values",
            ),
            VehicleFormError::OtherDataNotJson => String::from_str("field 'other-data' is not valid JSON"),
            VehicleFormError::OtherDataNotObject => String::from_str(
                "field 'other-data' does not contain a JSON object",
            ),
        }
    }
}

/// A vehicle as the form gives it, checked.
#[derive(Debug)]
pub struct VehicleInput {
    pub company: String,
    pub vehicle_number: String,
    pub type_code: String,
    pub vehicle_class: String,
    /// Distinct, in the order first given.
    pub power_sources: Vec<String>,
    pub in_service_since: Option<String>,
    pub out_of_service_since: Option<String>,
    pub manufacturer: Option<String>,
    pub depot: Option<String>,
    pub other_data: serde_json::Value,
}

/// The problem with a required field, if any.
pub open spec fn field_problem(q: Map<Seq<char>, Seq<Seq<char>>>, f: Field) -> Option<VehicleFormError> {
    match last_value(q, field_key(f)) {
        None => Some(VehicleFormError::Missing(f)),
        Some(v) => if v.len() == 0 {
            Some(VehicleFormError::Empty(f))
        } else {
            None
        },
    }
}

/// The first problem among the required fields, in form order.
pub open spec fn required_problem(q: Map<Seq<char>, Seq<Seq<char>>>) -> Option<VehicleFormError> {
    if field_problem(q, Field::Company) is Some {
        field_problem(q, Field::Company)
    } else if field_problem(q, Field::VehicleNumber) is Some {
        field_problem(q, Field::VehicleNumber)
    } else if field_problem(q, Field::TypeCode) is Some {
        field_problem(q, Field::TypeCode)
    } else if field_problem(q, Field::VehicleClass) is Some {
        field_problem(q, Field::VehicleClass)
    } else {
        field_problem(q, Field::OtherData)
    }
}

/// The nonblank lines of every value, in order.
pub open spec fn all_lines(values: Seq<Seq<char>>) -> Seq<Seq<char>>
    decreases values.len(),
{
    if values.len() == 0 {
        Seq::empty()
    } else {
        all_lines(values.drop_last()) + nonblank_lines(values.last())
    }
}

/// The items of `s` without repeats, each where it first occurs.
pub open spec fn distinct(s: Seq<Seq<char>>) -> Seq<Seq<char>>
    decreases s.len(),
{
    if s.len() == 0 {
        s
    } else {
        let d = distinct(s.drop_last());
        if d.contains(s.last()) {
            d
        } else {
            d.push(s.last())
        }
    }
}

/// The power sources a form gives: every line of every `power-source`
/// value, trimmed, blank ones left out, each once.
pub open spec fn form_power_sources(q: Map<Seq<char>, Seq<Seq<char>>>) -> Seq<Seq<char>> {
    distinct(
        all_lines(
            if q.contains_key("power-source"@) {
                q["power-source"@]
            } else {
                Seq::empty()
            },
        ),
    )
}

/// The value of a required field of a form without problems.
pub open spec fn field_value(q: Map<Seq<char>, Seq<Seq<char>>>, f: Field) -> Seq<char> {
    q[field_key(f)].last()
}

/// The last value of an optional field, none if it is absent or empty.
pub open spec fn optional_value(q: Map<Seq<char>, Seq<Seq<char>>>, key: Seq<char>) -> Option<Seq<char>> {
    match last_value(q, key) {
        Some(v) => if v.len() > 0 {
            Some(v)
        } else {
            None
        },
        None => None,
    }
}

/// The problem a form has before its `other-data` is parsed: a required
/// field missing or empty, then a class or a power source off its
/// allow-list.
pub open spec fn vehicle_problem(q: Map<Seq<char>, Seq<Seq<char>>>, sets: ValueSetConfig) -> Option<
    VehicleFormError,
> {
    if required_problem(q) is Some {
        required_problem(q)
    } else if !permitted(views(sets.vehicle_classes@), field_value(q, Field::VehicleClass)) {
        Some(VehicleFormError::ClassNotAllowed)
    } else if exists|i: int|
        0 <= i < form_power_sources(q).len() && !permitted(
            views(sets.power_sources@),
            #[trigger] form_power_sources(q)[i],
        ) {
        Some(VehicleFormError::PowerSourceNotAllowed)
    } else {
        None
    }
}

pub open spec fn opt_view(o: Option<String>) -> Option<Seq<char>> {
    match o {
        Some(s) => Some(s@),
        None => None,
    }
}

fn required(form: &ValueMultiset, f: Field) -> (r: Result<String, VehicleFormError>)
    requires
        form.wf(),
    ensures
        match field_problem(form@, f) {
            Some(e) => r == Err::<String, VehicleFormError>(e),
            None => r is Ok && r.unwrap()@ == field_value(form@, f),
        },
{
    match form.get_last(key_of(f)) {
        Some(v) => {
            if v.as_str().is_empty() {
                Err(VehicleFormError::Empty(f))
            } else {
                Ok(v.clone())
            }
        },
        None => Err(VehicleFormError::Missing(f)),
    }
}

fn optional(form: &ValueMultiset, key: &str) -> (r: Option<String>)
    requires
        form.wf(),
    ensures
        opt_view(r) == optional_value(form@, key@),
{
    match form.get_last(key) {
        Some(v) => {
            if v.as_str().is_empty() {
                None
            } else {
                Some(v.clone())
            }
        },
        None => None,
    }
}

/// Every nonblank line of the values, each once.
fn power_sources_of(values: &[String]) -> (r: Vec<String>)
    ensures
        views(r@) == distinct(all_lines(views(values@))),
{
    let mut r: Vec<String> = Vec::new();
    let mut i: usize = 0;
    while i < values.len()
        invariant
            i <= values@.len(),
            views(r@) == distinct(all_lines(views(values@).subrange(0, i as int))),
        decreases values@.len() - i,
    {
        let ghost pre = all_lines(views(values@).subrange(0, i as int));
        assert(views(values@).subrange(0, i + 1).drop_last() =~= views(values@).subrange(0, i as int));
        let lines = lines_of(values[i].as_str());
        let ghost ls = nonblank_lines(values@[i as int]@);
        let mut k: usize = 0;
        while k < lines.len()
            invariant
                k <= lines@.len(),
                lines@.len() == ls.len(),
                forall|j: int| 0 <= j < lines@.len() ==> #[trigger] lines@[j]@ == ls[j],
                views(r@) == distinct(pre + ls.subrange(0, k as int)),
            decreases lines@.len() - k,
        {
            assert((pre + ls.subrange(0, k + 1)).drop_last() =~= pre + ls.subrange(0, k as int));
            assert((pre + ls.subrange(0, k + 1)).last() == lines@[k as int]@);
            if !contains_text(r.as_slice(), &lines[k]) {
                let ghost before = r@;
                r.push(lines[k].clone());
                assert(views(r@) =~= views(before).push(lines@[k as int]@));
            }
            k = k + 1;
        }
        assert(ls.subrange(0, ls.len() as int) =~= ls);
        assert(views(values@).subrange(0, i + 1).last() == values@[i as int]@);
        i = i + 1;
    }
    assert(views(values@).subrange(0, values@.len() as int) =~= views(values@));
    r
}

/// Reads and checks a submitted vehicle form: every required field must be
/// given and not empty (the last value of a repeated field counts), the
/// class and every power source must pass their allow-lists, and
/// `other-data` must be a JSON object. The power sources are the nonblank
/// lines of all `power-source` values, each once; empty optional fields
/// count as absent.
pub fn read_vehicle_form(form: &ValueMultiset, sets: &ValueSetConfig) -> (r: Result<
    VehicleInput,
    VehicleFormError,
>)
    requires
        form.wf(),
    ensures
        vehicle_problem(form@, *sets) matches Some(e) ==> r == Err::<VehicleInput, VehicleFormError>(
            e,
        ),
        vehicle_problem(form@, *sets) is None && !json_valid(field_value(form@, Field::OtherData))
            ==> r == Err::<VehicleInput, VehicleFormError>(VehicleFormError::OtherDataNotJson),
        vehicle_problem(form@, *sets) is None && json_valid(field_value(form@, Field::OtherData))
            && !json_object_text(field_value(form@, Field::OtherData)) ==> r == Err::<
            VehicleInput,
            VehicleFormError,
        >(VehicleFormError::OtherDataNotObject),
        vehicle_problem(form@, *sets) is None && json_valid(field_value(form@, Field::OtherData))
            && json_object_text(field_value(form@, Field::OtherData)) ==> r is Ok,
        r matches Ok(v) ==> {
            &&& vehicle_problem(form@, *sets) is None
            &&& json_valid(field_value(form@, Field::OtherData))
            &&& json_object_text(field_value(form@, Field::OtherData))
            &&& v.company@ == field_value(form@, Field::Company)
            &&& v.vehicle_number@ == field_value(form@, Field::VehicleNumber)
            &&& v.type_code@ == field_value(form@, Field::TypeCode)
            &&& v.vehicle_class@ == field_value(form@, Field::VehicleClass)
            &&& views(v.power_sources@) == form_power_sources(form@)
            &&& opt_view(v.in_service_since) == optional_value(form@, "in-service-since"@)
            &&& opt_view(v.out_of_service_since) == optional_value(form@, "out-of-service-since"@)
            &&& opt_view(v.manufacturer) == optional_value(form@, "manufacturer"@)
            &&& opt_view(v.depot) == optional_value(form@, "depot"@)
        },
{
    let company = match required(form, Field::Company) {
        Ok(v) => v,
        Err(e) => {
            return Err(e);
        },
    };
    let vehicle_number = match required(form, Field::VehicleNumber) {
        Ok(v) => v,
        Err(e) => {
            return Err(e);
        },
    };
    let type_code = match required(form, Field::TypeCode) {
        Ok(v) => v,
        Err(e) => {
            return Err(e);
        },
    };
    let vehicle_class = match required(form, Field::VehicleClass) {
        Ok(v) => v,
        Err(e) => {
            return Err(e);
        },
    };
    let other_data_text = match required(form, Field::OtherData) {
        Ok(v) => v,
        Err(e) => {
            return Err(e);
        },
    };
    let power_sources = power_sources_of(form.get_list_or_empty("power-source"));
    let ghost ps = form_power_sources(form@);
    if !permits(sets.vehicle_classes.as_slice(), &vehicle_class) {
        return Err(VehicleFormError::ClassNotAllowed);
    }
    if sets.power_sources.len() > 0 {
        let mut i: usize = 0;
        while i < power_sources.len()
            invariant
                i <= power_sources@.len(),
                sets.power_sources@.len() > 0,
                ps == form_power_sources(form@),
                views(power_sources@) == ps,
                required_problem(form@) is None,
                permitted(views(sets.vehicle_classes@), field_value(form@, Field::VehicleClass)),
                forall|j: int| 0 <= j < i ==> permitted(views(sets.power_sources@), #[trigger] ps[j]),
            decreases power_sources@.len() - i,
        {
            assert(ps[i as int] == power_sources@[i as int]@);
            if !contains_text(sets.power_sources.as_slice(), &power_sources[i]) {
                assert(views(sets.power_sources@).len() > 0);
                assert(!permitted(views(sets.power_sources@), form_power_sources(form@)[i as int]));
                assert(required_problem(form@) is None);
                assert(permitted(views(sets.vehicle_classes@), field_value(form@, Field::VehicleClass)));
                assert(vehicle_problem(form@, *sets) == Some(VehicleFormError::PowerSourceNotAllowed));
                return Err(VehicleFormError::PowerSourceNotAllowed);
            }
            i = i + 1;
        }
    }
    let in_service_since = optional(form, "in-service-since");
    let out_of_service_since = optional(form, "out-of-service-since");
    let manufacturer = optional(form, "manufacturer");
    let depot = optional(form, "depot");
    if parse_json(other_data_text.as_str()).is_none() {
        return Err(VehicleFormError::OtherDataNotJson);
    }
    let other_data = match parse_json_object(other_data_text.as_str()) {
        Some(v) => v,
        None => {
            return Err(VehicleFormError::OtherDataNotObject);
        },
    };
    Ok(
        VehicleInput {
            company,
            vehicle_number,
            type_code,
            vehicle_class,
            power_sources,
            in_service_since,
            out_of_service_since,
            manufacturer,
            depot,
            other_data,
        },
    )
}

/// With a non-empty list of allowed classes, a form whose required fields
/// are all there but whose class is not on the list is refused for its
/// class, before anything is written.
pub proof fn lemma_class_off_list_refused(q: Map<Seq<char>, Seq<Seq<char>>>, sets: ValueSetConfig)
    requires
        required_problem(q) is None,
        sets.vehicle_classes@.len() > 0,
        !views(sets.vehicle_classes@).contains(field_value(q, Field::VehicleClass)),
    ensures
        vehicle_problem(q, sets) == Some(VehicleFormError::ClassNotAllowed),
{
}

/// With an empty list of allowed classes, no class is refused.
pub proof fn lemma_empty_class_list_accepts_any(q: Map<Seq<char>, Seq<Seq<char>>>, sets: ValueSetConfig)
    requires
        sets.vehicle_classes@.len() == 0,
    ensures
        vehicle_problem(q, sets) != Some(VehicleFormError::ClassNotAllowed),
{
    assert(views(sets.vehicle_classes@).len() == 0);
    if required_problem(q) is Some {
        let e = required_problem(q).unwrap();
        assert(e is Missing || e is Empty);
    }
}

} // verus!
