//! Couplings: reading the coupling form, resolving vehicle numbers to ids,
//! the membership rows that replace a coupling's members, and grouping the
//! member list.

use vstd::prelude::*;

use crate::request::last_value;
use crate::text::{lines_of, nonblank_lines};
use crate::value_multiset::{views, ValueMultiset};

verus! {

/// Why a coupling form is refused.
#[derive(PartialEq, Eq, Structural, Clone, Copy, Debug)]
pub enum CouplingFormError {
    MissingCompany,
    EmptyCompany,
    MissingVehicles,
    EmptyVehicles,
}

/// The reason given to the client for each error.
pub open spec fn coupling_error_text(e: CouplingFormError) -> Seq<char> {
    match e {
        CouplingFormError::MissingCompany => "field 'company' is required"@,
        CouplingFormError::EmptyCompany => "field 'company' must not be empty"@,
        CouplingFormError::MissingVehicles => "field 'vehicles' is required"@,
        CouplingFormError::EmptyVehicles => "field 'vehicles' must not be empty"@,
    }
}

impl CouplingFormError {
    /// The reason given to the client.
    pub fn message(&self) -> (r: &'static str)
        ensures
            r@ == coupling_error_text(*self),
    {
        match self {
            CouplingFormError::MissingCompany => "field 'company' is required",
            CouplingFormError::EmptyCompany => "field 'company' must not be empty",
            CouplingFormError::MissingVehicles => "field 'vehicles' is required",
            CouplingFormError::EmptyVehicles => "field 'vehicles' must not be empty",
        }
    }
}

/// A submitted coupling: the company and its vehicle numbers in the order
/// given.
#[derive(Debug)]
pub struct CouplingForm {
    pub company: String,
    pub vehicle_numbers: Vec<String>,
}

/// The problem with a coupling form, if any.
pub open spec fn coupling_form_problem(q: Map<Seq<char>, Seq<Seq<char>>>) -> Option<CouplingFormError> {
    match (last_value(q, "company"@), last_value(q, "vehicles"@)) {
        (None, _) => Some(CouplingFormError::MissingCompany),
        (Some(c), _) if c.len() == 0 => Some(CouplingFormError::EmptyCompany),
        (_, None) => Some(CouplingFormError::MissingVehicles),
        (_, Some(v)) if v.len() == 0 => Some(CouplingFormError::EmptyVehicles),
        _ => None,
    }
}

/// Reads a submitted coupling form: `company` and `vehicles` must be given
/// and not empty; the vehicle numbers are the lines of `vehicles`, trimmed,
/// blank ones left out, in order.
pub fn read_coupling_form(form: &ValueMultiset) -> (r: Result<CouplingForm, CouplingFormError>)
    requires
        form.wf(),
    ensures
        coupling_form_problem(form@) matches Some(e) ==> r == Err::<CouplingForm, CouplingFormError>(e),
        coupling_form_problem(form@) is None ==> r is Ok,
        r matches Ok(f) ==> {
            &&& f.company@ == last_value(form@, "company"@).unwrap()
            &&& views(f.vehicle_numbers@) == nonblank_lines(last_value(form@, "vehicles"@).unwrap())
        },
{
    let company = match form.get_last("company") {
        None => {
            return Err(CouplingFormError::MissingCompany);
        },
        Some(c) => c,
    };
    if company.as_str().is_empty() {
        return Err(CouplingFormError::EmptyCompany);
    }
    let vehicles = match form.get_last("vehicles") {
        None => {
            return Err(CouplingFormError::MissingVehicles);
        },
        Some(v) => v,
    };
    if vehicles.as_str().is_empty() {
        return Err(CouplingFormError::EmptyVehicles);
    }
    let vehicle_numbers = lines_of(vehicles.as_str());
    assert(views(vehicle_numbers@) =~= nonblank_lines(vehicles@));
    Ok(CouplingForm { company: company.clone(), vehicle_numbers })
}

/// The numbers whose lookup found no vehicle, in order.
pub open spec fn unresolved(numbers: Seq<Seq<char>>, lookups: Seq<Option<i64>>) -> Seq<Seq<char>>
    decreases numbers.len(),
{
    if numbers.len() == 0 || lookups.len() == 0 {
        Seq::empty()
    } else {
        let rest = unresolved(numbers.drop_last(), lookups.drop_last());
        if lookups.last() is None {
            rest.push(numbers.last())
        } else {
            rest
        }
    }
}

/// Turns the vehicle numbers of a coupling into vehicle ids, given what
/// the lookup of each number (within the coupling's company) found. If any
/// number found nothing, the unresolved numbers come back instead, in
/// order, and nothing may be written.
pub fn resolve_members(numbers: &[String], lookups: &[Option<i64>]) -> (r: Result<Vec<i64>, Vec<String>>)
    requires
        numbers@.len() == lookups@.len(),
    ensures
        r is Ok <==> forall|i: int| 0 <= i < lookups@.len() ==> #[trigger] lookups@[i] is Some,
        r matches Ok(ids) ==> ids@.len() == lookups@.len() && forall|i: int|
            0 <= i < ids@.len() ==> lookups@[i] == Some(#[trigger] ids@[i]),
        r matches Err(unknown) ==> views(unknown@) == unresolved(views(numbers@), lookups@),
{
    let mut ids: Vec<i64> = Vec::new();
    let mut unknown: Vec<String> = Vec::new();
    let mut i: usize = 0;
    while i < numbers.len()
        invariant
            i <= numbers@.len() == lookups@.len(),
            ids@.len() <= i,
            views(unknown@) == unresolved(views(numbers@).subrange(0, i as int), lookups@.subrange(0, i as int)),
            unknown@.len() == 0 ==> ids@.len() == i && forall|j: int|
                0 <= j < i ==> lookups@[j] == Some(#[trigger] ids@[j]),
            unknown@.len() > 0 ==> exists|j: int| 0 <= j < i && #[trigger] lookups@[j] is None,
        decreases numbers@.len() - i,
    {
        assert(views(numbers@).subrange(0, i + 1).drop_last() =~= views(numbers@).subrange(0, i as int));
        assert(lookups@.subrange(0, i + 1).drop_last() =~= lookups@.subrange(0, i as int));
        match lookups[i] {
            Some(id) => {
                ids.push(id);
            },
            None => {
                let ghost before = unknown@;
                unknown.push(numbers[i].clone());
                assert(views(unknown@) =~= views(before).push(numbers@[i as int]@));
            },
        }
        i = i + 1;
    }
    assert(views(numbers@).subrange(0, i as int) =~= views(numbers@));
    assert(lookups@.subrange(0, i as int) =~= lookups@);
    if unknown.len() > 0 {
        proof {
            let j = choose|j: int| 0 <= j < i && #[trigger] lookups@[j] is None;
            assert(!(lookups@[j] is Some));
        }
        Err(unknown)
    } else {
        assert forall|j: int| 0 <= j < lookups@.len() implies #[trigger] lookups@[j] is Some by {
            assert(lookups@[j] == Some(ids@[j]));
        }
        Ok(ids)
    }
}

/// The texts one after the other.
pub open spec fn concat_all(s: Seq<Seq<char>>) -> Seq<char>
    decreases s.len(),
{
    if s.len() == 0 {
        Seq::empty()
    } else {
        concat_all(s.drop_last()) + s.last()
    }
}

/// The reason given when vehicle numbers do not resolve.
pub fn unknown_vehicles_message(unknown: &[String]) -> (r: String)
    ensures
        r@ == "unknown vehicle numbers:"@ + concat_all(views(unknown@)),
{
    let mut r = String::from_str("unknown vehicle numbers:");
    let mut i: usize = 0;
    while i < unknown.len()
        invariant
            i <= unknown@.len(),
            r@ == "unknown vehicle numbers:"@ + concat_all(views(unknown@).subrange(0, i as int)),
        decreases unknown@.len() - i,
    {
        assert(views(unknown@).subrange(0, i + 1).drop_last() =~= views(unknown@).subrange(0, i as int));
        r.append(unknown[i].as_str());
        i = i + 1;
    }
    assert(views(unknown@).subrange(0, i as int) =~= views(unknown@));
    r
}

/// One member of a coupling: the vehicle and its 1-based position.
#[derive(PartialEq, Eq, Structural, Clone, Copy, Debug)]
pub struct MemberRow {
    pub vehicle_id: i64,
    pub position: i64,
}

/// The membership rows of vehicles in the order given: the vehicle at index
/// `i` gets position `i + 1`.
pub open spec fn rows_for(ids: Seq<i64>) -> Seq<MemberRow> {
    Seq::new(ids.len(), |i: int| MemberRow { vehicle_id: ids[i], position: (i + 1) as i64 })
}

/// The membership rows that a coupling of these vehicles, in this order,
/// consists of.
pub fn member_rows(ids: &[i64]) -> (r: Vec<MemberRow>)
    requires
        ids@.len() < i64::MAX,
    ensures
        r@ == rows_for(ids@),
{
    let mut r: Vec<MemberRow> = Vec::new();
    let mut i: usize = 0;
    while i < ids.len()
        invariant
            i <= ids@.len() < i64::MAX,
            r@ =~= rows_for(ids@).subrange(0, i as int),
        decreases ids@.len() - i,
    {
        r.push(MemberRow { vehicle_id: ids[i], position: (i + 1) as i64 });
        i = i + 1;
    }
    assert(rows_for(ids@).subrange(0, i as int) =~= rows_for(ids@));
    r
}

/// A row of the membership table: coupling, vehicle, position.
pub struct Membership {
    pub coupling_id: i64,
    pub vehicle_id: i64,
    pub position: i64,
}

/// The rows of coupling `c`, in table order.
pub open spec fn members_of(table: Seq<Membership>, c: i64) -> Seq<Membership> {
    table.filter(|m: Membership| m.coupling_id == c)
}

/// The table after the members of `c` are deleted and `rows` are inserted
/// for `c`, as one transaction does it.
pub open spec fn after_replace(table: Seq<Membership>, c: i64, rows: Seq<MemberRow>) -> Seq<Membership> {
    table.filter(|m: Membership| m.coupling_id != c) + rows.map_values(
        |r: MemberRow| Membership { coupling_id: c, vehicle_id: r.vehicle_id, position: r.position },
    )
}

/// Replacing the members of a coupling leaves it with exactly the vehicles
/// given, in the order given, at positions 1 to N; its earlier members are
/// gone and every other coupling keeps its members.
pub proof fn lemma_replace_members(table: Seq<Membership>, c: i64, ids: Seq<i64>, other: i64)
    requires
        ids.len() < i64::MAX,
        other != c,
    ensures
        members_of(after_replace(table, c, rows_for(ids)), c) == Seq::new(
            ids.len(),
            |i: int| Membership { coupling_id: c, vehicle_id: ids[i], position: (i + 1) as i64 },
        ),
        members_of(after_replace(table, c, rows_for(ids)), other) == members_of(table, other),
{
    let kept = table.filter(|m: Membership| m.coupling_id != c);
    let added = rows_for(ids).map_values(
        |r: MemberRow| Membership { coupling_id: c, vehicle_id: r.vehicle_id, position: r.position },
    );
    let is_c = |m: Membership| m.coupling_id == c;
    let is_other = |m: Membership| m.coupling_id == other;
    let not_c = |m: Membership| m.coupling_id != c;
    Seq::filter_distributes_over_add(kept, added, is_c);
    Seq::filter_distributes_over_add(kept, added, is_other);
    lemma_filter_none(kept, is_c);
    lemma_filter_all(added, is_c);
    lemma_filter_none(added, is_other);
    lemma_filter_nested(table, not_c, is_other);
    assert(kept.filter(is_c) + added.filter(is_c) =~= added);
    assert(kept.filter(is_other) + added.filter(is_other) =~= kept.filter(is_other));
    assert(added =~= Seq::new(
        ids.len(),
        |i: int| Membership { coupling_id: c, vehicle_id: ids[i], position: (i + 1) as i64 },
    ));
}

proof fn lemma_filter_none(s: Seq<Membership>, p: spec_fn(Membership) -> bool)
    requires
        forall|i: int| 0 <= i < s.len() ==> !p(#[trigger] s[i]),
    ensures
        s.filter(p) == Seq::<Membership>::empty(),
    decreases s.len(),
{
    reveal(Seq::filter);
    if s.len() > 0 {
        lemma_filter_none(s.drop_last(), p);
        assert(!p(s[s.len() - 1]));
    }
    assert(s.filter(p) =~= Seq::<Membership>::empty());
}

proof fn lemma_filter_all(s: Seq<Membership>, p: spec_fn(Membership) -> bool)
    requires
        forall|i: int| 0 <= i < s.len() ==> p(#[trigger] s[i]),
    ensures
        s.filter(p) == s,
    decreases s.len(),
{
    reveal(Seq::filter);
    if s.len() > 0 {
        lemma_filter_all(s.drop_last(), p);
        assert(p(s[s.len() - 1]));
        assert(s.drop_last().push(s.last()) =~= s);
    }
    assert(s.filter(p) =~= s);
}

/// Keeping the rows of `other` among those not of `c` keeps the rows of
/// `other`.
proof fn lemma_filter_nested(
    s: Seq<Membership>,
    p: spec_fn(Membership) -> bool,
    q: spec_fn(Membership) -> bool,
)
    requires
        forall|m: Membership| #[trigger] q(m) ==> p(m),
    ensures
        s.filter(p).filter(q) == s.filter(q),
    decreases s.len(),
{
    reveal(Seq::filter);
    if s.len() > 0 {
        lemma_filter_nested(s.drop_last(), p, q);
        if p(s.last()) {
            assert(s.filter(p).drop_last() =~= s.drop_last().filter(p));
        }
    }
}

/// One vehicle of a listed coupling.
#[derive(Debug)]
pub struct CouplingVehiclePart {
    pub id: i64,
    pub veh_number: String,
}

/// A coupling with its vehicles in position order.
#[derive(Debug)]
pub struct CouplingPart {
    pub id: i64,
    pub vehicles: Vec<CouplingVehiclePart>,
}

/// The vehicles (id, number) that member rows, each a coupling id, vehicle
/// id and vehicle number, give to coupling `c`, in row order.
pub open spec fn members_listed(rows: Seq<(i64, i64, String)>, c: i64) -> Seq<(i64, Seq<char>)> {
    rows.filter_map(
        |x: (i64, i64, String)|
            if x.0 == c {
                Some((x.1, x.2@))
            } else {
                None
            },
    )
}

/// The vehicles of a listed coupling, as ids and numbers.
pub open spec fn vehicle_views(c: CouplingPart) -> Seq<(i64, Seq<char>)> {
    c.vehicles@.map_values(|v: CouplingVehiclePart| (v.id, v.veh_number@))
}

fn members_for(rows: &[(i64, i64, String)], c: i64) -> (r: Vec<CouplingVehiclePart>)
    ensures
        r@.map_values(|v: CouplingVehiclePart| (v.id, v.veh_number@)) == members_listed(rows@, c),
{
    let mut r: Vec<CouplingVehiclePart> = Vec::new();
    let mut i: usize = 0;
    while i < rows.len()
        invariant
            i <= rows@.len(),
            r@.map_values(|v: CouplingVehiclePart| (v.id, v.veh_number@)) == members_listed(
                rows@.subrange(0, i as int),
                c,
            ),
        decreases rows@.len() - i,
    {
        let ghost pre = rows@.subrange(0, i as int);
        assert(rows@.subrange(0, i + 1).drop_last() =~= pre);
        assert(rows@.subrange(0, i + 1).last() == rows@[i as int]);
        if rows[i].0 == c {
            let ghost m = members_listed(pre, c);
            let ghost before = r@;
            r.push(CouplingVehiclePart { id: rows[i].1, veh_number: rows[i].2.clone() });
            assert(r@.map_values(|v: CouplingVehiclePart| (v.id, v.veh_number@)) =~= before.map_values(
                |v: CouplingVehiclePart| (v.id, v.veh_number@),
            ).push((rows@[i as int].1, rows@[i as int].2@)));
            assert(members_listed(rows@.subrange(0, i + 1), c) == m + seq![
                (rows@[i as int].1, rows@[i as int].2@),
            ]);
            assert(m.push((rows@[i as int].1, rows@[i as int].2@)) =~= m + seq![
                (rows@[i as int].1, rows@[i as int].2@),
            ]);
        }
        i = i + 1;
    }
    assert(rows@.subrange(0, i as int) =~= rows@);
    r
}

/// Lists the couplings, one entry for each id in the order given, each
/// with the vehicles that the member rows give it, in row order (so in
/// position order where the rows come ordered by position). A coupling
/// without member rows is listed with no vehicles.
pub fn group_couplings(coupling_ids: &[i64], rows: &[(i64, i64, String)]) -> (r: Vec<CouplingPart>)
    ensures
        r@.len() == coupling_ids@.len(),
        forall|i: int|
            0 <= i < r@.len() ==> (#[trigger] r@[i]).id == coupling_ids@[i] && vehicle_views(r@[i])
                == members_listed(rows@, coupling_ids@[i]),
{
    let mut r: Vec<CouplingPart> = Vec::new();
    let mut i: usize = 0;
    while i < coupling_ids.len()
        invariant
            i <= coupling_ids@.len(),
            r@.len() == i,
            forall|k: int|
                0 <= k < i ==> (#[trigger] r@[k]).id == coupling_ids@[k] && vehicle_views(r@[k])
                    == members_listed(rows@, coupling_ids@[k]),
        decreases coupling_ids@.len() - i,
    {
        let c = coupling_ids[i];
        let vehicles = members_for(rows, c);
        r.push(CouplingPart { id: c, vehicles });
        i = i + 1;
    }
    r
}

/// Whether a delete or update found its row: it did if it affected any.
pub fn row_found(affected_rows: u64) -> (r: bool)
    ensures
        r == (affected_rows > 0),
{
    affected_rows > 0
}

} // verus!
