//! Settings that are read once at startup and then only read.

use vstd::prelude::*;

use crate::value_multiset::views;

verus! {

/// Where the database is and how to log in to it.
#[derive(Debug)]
pub struct DbConfig {
    pub username: String,
    pub password: String,
    pub hostname: String,
    pub db_name: String,
    pub port: u16,
}

impl DbConfig {
    /// The port used when the settings name none: PostgreSQL's.
    pub fn default_port() -> (r: u16)
        ensures
            r == 5432,
    {
        5432
    }
}

/// The controlled vocabularies of vehicle classes and power sources; an
/// empty list leaves the field unrestricted.
#[derive(Debug)]
pub struct ValueSetConfig {
    pub vehicle_classes: Vec<String>,
    pub power_sources: Vec<String>,
}

/// Whether an allow-list lets `v` through: an empty list lets everything
/// through, else `v` must be on it.
pub open spec fn permitted(list: Seq<Seq<char>>, v: Seq<char>) -> bool {
    list.len() == 0 || list.contains(v)
}

/// Whether `v` is in `list`.
pub fn contains_text(list: &[String], v: &String) -> (r: bool)
    ensures
        r == views(list@).contains(v@),
{
    let mut i: usize = 0;
    while i < list.len()
        invariant
            i <= list@.len(),
            forall|j: int| 0 <= j < i ==> list@[j]@ != v@,
        decreases list@.len() - i,
    {
        if list[i] == *v {
            assert(views(list@)[i as int] == v@);
            return true;
        }
        i = i + 1;
    }
    proof {
        if views(list@).contains(v@) {
            let j = choose|j: int| 0 <= j < views(list@).len() && views(list@)[j] == v@;
            assert(list@[j]@ == v@);
        }
    }
    false
}

/// Whether the allow-list lets `v` through.
pub fn permits(list: &[String], v: &String) -> (r: bool)
    ensures
        r == permitted(views(list@), v@),
{
    list.len() == 0 || contains_text(list, v)
}

impl ValueSetConfig {
    /// No restriction on either field.
    pub fn unrestricted() -> (r: Self)
        ensures
            r.vehicle_classes@.len() == 0,
            r.power_sources@.len() == 0,
    {
        ValueSetConfig { vehicle_classes: Vec::new(), power_sources: Vec::new() }
    }
}

} // verus!
