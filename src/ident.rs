use vstd::prelude::*;
use vstd::string::StrSliceExecFns;

verus! {

/// A lower-case ASCII letter, the suffix that names a planet inside a system.
pub open spec fn is_planet_suffix(c: char) -> bool {
    'a' <= c && c <= 'z'
}

/// The system identifier of a planet identifier: the identifier without its
/// trailing lower-case letter, or the identifier itself when it has none.
pub open spec fn system_of_planet(id: Seq<char>) -> Seq<char> {
    if id.len() > 0 && is_planet_suffix(id.last()) {
        id.drop_last()
    } else {
        id
    }
}

/// Derives the system identifier from a planet or site identifier
/// (`"UV-351a"` gives `"UV-351"`; `"OT-580"` is returned unchanged).
pub fn extract_system_from_planet(planet_id: &str) -> (r: String)
    ensures
        r@ == system_of_planet(planet_id@),
{
    let n = planet_id.unicode_len();
    if n > 0 {
        let last = planet_id.get_char(n - 1);
        if 'a' <= last && last <= 'z' {
            let head = planet_id.substring_char(0, n - 1);
            return head.to_owned();
        }
    }
    planet_id.to_owned()
}

} // verus!
