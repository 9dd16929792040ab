//! Joining the results of several units, and the command line of a batch.
use vstd::prelude::*;
use crate::types::CompileError;

verus! {

/// The outcome of a batch: the bytes of every unit in input order, or the
/// failure of the first unit, in input order, that failed.
pub open spec fn combine(rs: Seq<Result<Seq<u8>, CompileError>>) -> Result<Seq<u8>, CompileError>
    decreases rs.len(),
{
    if rs.len() == 0 {
        Ok(seq![])
    } else {
        match combine(rs.drop_last()) {
            Err(e) => Err(e),
            Ok(acc) => match rs.last() {
                Ok(b) => Ok(acc + b),
                Err(e) => Err(e),
            },
        }
    }
}

/// The results of the units as mathematical values.
pub open spec fn result_views(rs: Seq<Result<Vec<u8>, CompileError>>) -> Seq<
    Result<Seq<u8>, CompileError>,
> {
    Seq::new(
        rs.len(),
        |i: int|
            match rs[i] {
                Ok(b) => Ok(b@),
                Err(e) => Err(e),
            },
    )
}

/// Joins the results of the units of a batch, given in input order.
pub fn concat_units(results: &Vec<Result<Vec<u8>, CompileError>>) -> (r: Result<Vec<u8>, CompileError>)
    ensures
        match combine(result_views(results@)) {
            Ok(b) => r matches Ok(v) && v@ == b,
            Err(e) => r == Err::<Vec<u8>, CompileError>(e),
        },
{
    let ghost rv = result_views(results@);
    let mut out: Vec<u8> = Vec::new();
    let mut i: usize = 0;
    assert(rv.subrange(0, 0) =~= seq![]);
    while i < results.len()
        invariant
            i <= results@.len(),
            rv == result_views(results@),
            combine(rv.subrange(0, i as int)) == Ok::<Seq<u8>, CompileError>(out@),
        decreases results@.len() - i,
    {
        assert(rv.subrange(0, i + 1).drop_last() =~= rv.subrange(0, i as int));
        match &results[i] {
            Err(e) => {
                proof {
                    lemma_combine_failure_stays(rv, i + 1);
                }
                return Err(*e);
            },
            Ok(b) => {
                let mut j: usize = 0;
                let ghost before = out@;
                while j < b.len()
                    invariant
                        j <= b@.len(),
                        out@ == before + b@.subrange(0, j as int),
                    decreases b@.len() - j,
                {
                    out.push(b[j]);
                    assert(b@.subrange(0, j + 1) =~= b@.subrange(0, j as int).push(b@[j as int]));
                    j = j + 1;
                }
                assert(b@.subrange(0, b@.len() as int) =~= b@);
            },
        }
        i = i + 1;
    }
    assert(rv.subrange(0, i as int) =~= rv);
    Ok(out)
}

/// Once a unit has failed, the units after it do not change the outcome.
pub proof fn lemma_combine_failure_stays(rs: Seq<Result<Seq<u8>, CompileError>>, j: int)
    requires
        0 <= j <= rs.len(),
        combine(rs.subrange(0, j)) is Err,
    ensures
        combine(rs) == combine(rs.subrange(0, j)),
    decreases rs.len() - j,
{
    if j < rs.len() {
        assert(rs.drop_last().subrange(0, j) =~= rs.subrange(0, j));
        lemma_combine_failure_stays(rs.drop_last(), j);
    } else {
        assert(rs.subrange(0, j) =~= rs);
    }
}

/// Two units listed as `[a, b]` give the bytes of `a` followed by those of `b`,
/// and when either fails, the batch fails with the failure of the first listed
/// one that failed.
pub proof fn lemma_two_units(a: Result<Seq<u8>, CompileError>, b: Result<Seq<u8>, CompileError>)
    ensures
        combine(seq![a, b]) == match (a, b) {
            (Ok(x), Ok(y)) => Ok(x + y),
            (Err(e), _) => Err(e),
            (Ok(_), Err(e)) => Err::<Seq<u8>, CompileError>(e),
        },
{
    let s2 = seq![a, b];
    let s1 = seq![a];
    let s0 = Seq::<Result<Seq<u8>, CompileError>>::empty();
    assert(s2.drop_last() =~= s1);
    assert(s1.drop_last() =~= s0);
    assert(combine(s0) == Ok::<Seq<u8>, CompileError>(seq![]));
    match a {
        Ok(x) => {
            assert(Seq::<u8>::empty() + x =~= x);
            assert(combine(s1) == Ok::<Seq<u8>, CompileError>(x));
        },
        Err(e) => {
            assert(combine(s1) == Err::<Seq<u8>, CompileError>(e));
        },
    }
}

} // verus!
