//! Folding the flat export queries into one nested record per vehicle.

use vstd::prelude::*;

use crate::config::contains_text;
use crate::value_multiset::views;
use crate::vehicle::{distinct, opt_view};

verus! {

/// A vehicle row of the export query.
#[derive(Debug)]
pub struct ExportVehicle {
    pub id: i64,
    pub veh_number: String,
    pub type_code: String,
    pub veh_class: String,
    pub in_service_since: Option<String>,
    pub out_of_service_since: Option<String>,
    pub manufacturer: Option<String>,
    pub depot: Option<String>,
    /// The vehicle's other data, as JSON text.
    pub other_data: String,
}

/// One exported vehicle. Every field is always present; a vehicle without
/// couplings or power sources has empty lists.
#[derive(Debug)]
pub struct ExportRecord {
    pub number: String,
    pub vehicle_class: String,
    pub type_code: String,
    pub in_service_since: Option<String>,
    pub out_of_service_since: Option<String>,
    pub manufacturer: Option<String>,
    pub depot: Option<String>,
    /// JSON text of an object.
    pub other_data: String,
    /// The vehicle numbers of the couplings this vehicle is in, in
    /// position order.
    pub fixed_coupling: Vec<String>,
    /// Each power source once.
    pub power_sources: Vec<String>,
}

/// The texts that rows keyed by vehicle id give to vehicle `id`, in row
/// order.
pub open spec fn texts_for(rows: Seq<(i64, String)>, id: i64) -> Seq<Seq<char>> {
    rows.filter_map(|r: (i64, String)| if r.0 == id { Some(r.1@) } else { None })
}

/// The export record of vehicle `v`, given the coupling rows (vehicle id,
/// partner number) and power source rows (vehicle id, power source).
pub open spec fn record_of(
    r: ExportRecord,
    v: ExportVehicle,
    coupling_rows: Seq<(i64, String)>,
    power_rows: Seq<(i64, String)>,
) -> bool {
    &&& r.number@ == v.veh_number@
    &&& r.vehicle_class@ == v.veh_class@
    &&& r.type_code@ == v.type_code@
    &&& opt_view(r.in_service_since) == opt_view(v.in_service_since)
    &&& opt_view(r.out_of_service_since) == opt_view(v.out_of_service_since)
    &&& opt_view(r.manufacturer) == opt_view(v.manufacturer)
    &&& opt_view(r.depot) == opt_view(v.depot)
    &&& r.other_data@ == v.other_data@
    &&& views(r.fixed_coupling@) == texts_for(coupling_rows, v.id)
    &&& views(r.power_sources@) == distinct(texts_for(power_rows, v.id))
}

fn clone_opt(o: &Option<String>) -> (r: Option<String>)
    ensures
        opt_view(r) == opt_view(*o),
{
    match o {
        Some(s) => Some(s.clone()),
        None => None,
    }
}

/// The texts of the rows of vehicle `id`; with `once`, each text only once.
fn collect_for(rows: &[(i64, String)], id: i64, once: bool) -> (r: Vec<String>)
    ensures
        once ==> views(r@) == distinct(texts_for(rows@, id)),
        !once ==> views(r@) == texts_for(rows@, id),
{
    let mut r: Vec<String> = Vec::new();
    let mut i: usize = 0;
    while i < rows.len()
        invariant
            i <= rows@.len(),
            once ==> views(r@) == distinct(texts_for(rows@.subrange(0, i as int), id)),
            !once ==> views(r@) == texts_for(rows@.subrange(0, i as int), id),
        decreases rows@.len() - i,
    {
        let ghost pre = rows@.subrange(0, i as int);
        assert(rows@.subrange(0, i + 1).drop_last() =~= pre);
        assert(rows@.subrange(0, i + 1).last() == rows@[i as int]);
        if rows[i].0 == id {
            let ghost t = texts_for(pre, id);
            assert(texts_for(rows@.subrange(0, i + 1), id) == t + seq![rows@[i as int].1@]);
            assert((t + seq![rows@[i as int].1@]).drop_last() =~= t);
            if !once || !contains_text(r.as_slice(), &rows[i].1) {
                let ghost before = r@;
                r.push(rows[i].1.clone());
                assert(views(r@) =~= views(before).push(rows@[i as int].1@));
            }
        }
        i = i + 1;
    }
    assert(rows@.subrange(0, i as int) =~= rows@);
    r
}

/// The export records of the vehicles, in the order of the vehicle rows:
/// each vehicle's partners in its couplings and its power sources are
/// looked up by its id; none found gives an empty list.
pub fn export_records(
    vehicles: &[ExportVehicle],
    coupling_rows: &[(i64, String)],
    power_rows: &[(i64, String)],
) -> (r: Vec<ExportRecord>)
    ensures
        r@.len() == vehicles@.len(),
        forall|i: int|
            0 <= i < r@.len() ==> record_of(#[trigger] r@[i], vehicles@[i], coupling_rows@, power_rows@),
{
    let mut r: Vec<ExportRecord> = Vec::new();
    let mut i: usize = 0;
    while i < vehicles.len()
        invariant
            i <= vehicles@.len(),
            r@.len() == i,
            forall|k: int|
                0 <= k < i ==> record_of(#[trigger] r@[k], vehicles@[k], coupling_rows@, power_rows@),
        decreases vehicles@.len() - i,
    {
        let v = &vehicles[i];
        let record = ExportRecord {
            number: v.veh_number.clone(),
            vehicle_class: v.veh_class.clone(),
            type_code: v.type_code.clone(),
            in_service_since: clone_opt(&v.in_service_since),
            out_of_service_since: clone_opt(&v.out_of_service_since),
            manufacturer: clone_opt(&v.manufacturer),
            depot: clone_opt(&v.depot),
            other_data: v.other_data.clone(),
            fixed_coupling: collect_for(coupling_rows, v.id, false),
            power_sources: collect_for(power_rows, v.id, true),
        };
        r.push(record);
        i = i + 1;
    }
    r
}

/// A vehicle that no coupling row and no power source row names exports
/// with an empty coupling list and an empty power source list.
pub proof fn lemma_unmatched_vehicle_exports_empty(
    r: ExportRecord,
    v: ExportVehicle,
    coupling_rows: Seq<(i64, String)>,
    power_rows: Seq<(i64, String)>,
)
    requires
        record_of(r, v, coupling_rows, power_rows),
        forall|i: int| 0 <= i < coupling_rows.len() ==> (#[trigger] coupling_rows[i]).0 != v.id,
        forall|i: int| 0 <= i < power_rows.len() ==> (#[trigger] power_rows[i]).0 != v.id,
    ensures
        r.fixed_coupling@.len() == 0,
        r.power_sources@.len() == 0,
{
    lemma_texts_none(coupling_rows, v.id);
    lemma_texts_none(power_rows, v.id);
    assert(views(r.fixed_coupling@).len() == r.fixed_coupling@.len());
    assert(views(r.power_sources@).len() == r.power_sources@.len());
}

proof fn lemma_texts_none(rows: Seq<(i64, String)>, id: i64)
    requires
        forall|i: int| 0 <= i < rows.len() ==> (#[trigger] rows[i]).0 != id,
    ensures
        texts_for(rows, id) == Seq::<Seq<char>>::empty(),
        distinct(texts_for(rows, id)) == Seq::<Seq<char>>::empty(),
    decreases rows.len(),
{
    if rows.len() > 0 {
        assert(rows.last() == rows[rows.len() - 1]);
        lemma_texts_none(rows.drop_last(), id);
    }
}

} // verus!
