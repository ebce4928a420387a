use vstd::prelude::*;
use vstd::string::StringExecFns;

verus! {

/// The period (a year or a month) the table view settles on: the
/// requested one when the query names one, otherwise the first of the
/// offered periods, otherwise empty.
pub fn pick_period(requested: Option<&String>, offered: &Vec<String>) -> (r: String)
    ensures
        r@ == match requested {
            Some(p) => p@,
            None => if offered@.len() > 0 {
                offered@[0]@
            } else {
                Seq::<char>::empty()
            },
        },
{
    match requested {
        Some(p) => p.clone(),
        None => {
            if offered.len() > 0 {
                offered[0].clone()
            } else {
                String::new()
            }
        },
    }
}

} // verus!
