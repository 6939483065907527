use vstd::prelude::*;

verus! {

/// The devices that were obtained, in enumeration order; the failed attempts
/// are left out.
pub open spec fn successes<T, E>(attempts: Seq<Result<T, E>>) -> Seq<T>
    decreases attempts.len(),
{
    if attempts.len() == 0 {
        Seq::empty()
    } else {
        let rest = successes(attempts.drop_last());
        match attempts.last() {
            Ok(t) => rest.push(t),
            Err(_) => rest,
        }
    }
}

/// Keeps each device whose enumeration succeeded and drops each failed
/// attempt, keeping the order.
pub fn keep_enumerated<T, E>(attempts: Vec<Result<T, E>>) -> (r: Vec<T>)
    ensures
        r@ == successes(attempts@),
{
    let ghost all = attempts@;
    let mut rest = attempts;
    let mut r: Vec<T> = Vec::new();
    let ghost mut taken: int = 0;
    while rest.len() > 0
        invariant
            0 <= taken <= all.len(),
            rest@ == all.subrange(taken, all.len() as int),
            r@ == successes(all.subrange(0, taken)),
        decreases rest@.len(),
    {
        let ghost upto = all.subrange(0, taken + 1);
        assert(upto.drop_last() =~= all.subrange(0, taken));
        assert(upto.last() == rest@[0]);
        let attempt = rest.remove(0);
        match attempt {
            Ok(t) => {
                r.push(t);
            },
            Err(_) => {},
        }
        proof {
            taken = taken + 1;
        }
        assert(rest@ =~= all.subrange(taken, all.len() as int));
    }
    assert(all.subrange(0, all.len() as int) =~= all);
    r
}

} // verus!
