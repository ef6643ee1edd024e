//! Looking up a WSR-88D site by its ICAO identifier.

use vstd::prelude::*;
use crate::text::{eq_ignore_ascii_case, eq_ignore_ascii_case_spec};

verus! {

/// Position of the first of `icaos` equal to `icao` ignoring ASCII case, or
/// `None` when there is none.
pub fn find_site_index(icaos: &Vec<String>, icao: &str) -> (r: Option<usize>)
    ensures
        match r {
            Some(i) => i < icaos.len() && eq_ignore_ascii_case_spec(icaos@[i as int]@, icao@) && forall|j: int|
                0 <= j < i ==> !eq_ignore_ascii_case_spec(#[trigger] icaos@[j]@, icao@),
            None => forall|j: int| 0 <= j < icaos.len() ==> !eq_ignore_ascii_case_spec(#[trigger] icaos@[j]@, icao@),
        },
{
    let n = icaos.len();
    let mut i: usize = 0;
    while i < n
        invariant
            n == icaos.len(),
            i <= n,
            forall|j: int| 0 <= j < i ==> !eq_ignore_ascii_case_spec(#[trigger] icaos@[j]@, icao@),
        decreases n - i,
    {
        if eq_ignore_ascii_case(icaos[i].as_str(), icao) {
            return Some(i);
        }
        i = i + 1;
    }
    None
}

} // verus!
