//! Presenting the processes that hold a lock on a file.

use vstd::prelude::*;

use crate::batch::texts;
use crate::text::push_str;

verus! {

/// The strings `ns` joined with the separator `sep` between neighbours.
pub open spec fn joined(ns: Seq<Seq<char>>, sep: Seq<char>) -> Seq<char>
    decreases ns.len(),
{
    if ns.len() == 0 {
        seq![]
    } else if ns.len() == 1 {
        ns[0]
    } else {
        joined(ns.drop_last(), sep) + sep + ns.last()
    }
}

/// Joins a slice of process names into a single comma-separated string.
///
/// Returns `names.join(", ")`. An empty slice returns an empty string.
pub fn join_process_names(names: &[String]) -> (r: String)
    ensures
        r@ == joined(texts(names@), ", "@),
{
    let mut r = String::new();
    let mut i: usize = 0;
    while i < names.len()
        invariant
            i <= names.len(),
            r@ == joined(texts(names@).take(i as int), ", "@),
        decreases names.len() - i,
    {
        let ghost ns = texts(names@);
        assert(ns.take(i + 1).drop_last() =~= ns.take(i as int));
        assert(ns.take(i + 1).last() == names@[i as int]@);
        if i > 0 {
            push_str(&mut r, ", ");
        } else {
            assert(ns.take(1)[0] == names@[0]@);
        }
        push_str(&mut r, names[i].as_str());
        i = i + 1;
    }
    assert(texts(names@).take(i as int) =~= texts(names@));
    r
}

} // verus!
