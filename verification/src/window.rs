//! Bringing the host application's own window to the foreground: the
//! decision of which window to raise. The surrounding application lists the
//! window titles and performs the raise on the chosen one.

use vstd::prelude::*;
use crate::strutil::str_eq;

verus! {

/// Title the host application's main window carries.
pub open spec fn home_title() -> Seq<char> {
    "Macropinna"@
}

/// Pick the window to raise as the host's home surface: the first window
/// whose title is exactly the host application's own. Nothing is raised
/// when no window matches.
pub fn raise_home(titles: &Vec<String>) -> (r: Option<usize>)
    ensures
        match r {
            Some(i) => i < titles@.len() && titles@[i as int]@ == home_title() && (forall|j: int|
                0 <= j < i ==> titles@[j]@ != home_title()),
            None => forall|j: int| 0 <= j < titles@.len() ==> titles@[j]@ != home_title(),
        },
{
    let mut i: usize = 0;
    while i < titles.len()
        invariant
            i <= titles@.len(),
            forall|j: int| 0 <= j < i ==> titles@[j]@ != home_title(),
        decreases titles@.len() - i,
    {
        if str_eq(titles[i].as_str(), "Macropinna") {
            return Some(i);
        }
        i += 1;
    }
    None
}

} // verus!
