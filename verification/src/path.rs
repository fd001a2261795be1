//! Chaining pair math across a multi-hop trading path.
//!
//! A path of `n >= 2` assets has `n - 1` hops; each hop is a consecutive
//! asset pair and carries the reserves `(reserve_in, reserve_out)` that
//! the pair's pool holds at quote time, in the direction of travel.  The
//! functions here take one reserve pair per hop, in path order, as the
//! reserve-lookup collaborator returned them, and thread amounts through
//! the hops: forward for an exact input, backward for an exact output.
//! A path of fewer than two assets has no hop and is rejected as invalid;
//! any hop's failure aborts the whole computation with that hop's error.

use vstd::prelude::*;

use crate::error::QuoteError;
use crate::pair::{amount_in_result, amount_out_result, get_amount_in, get_amount_out};

verus! {

/// The amounts produced by walking `hops` left to right, starting from
/// `amount_in`: element 0 is `amount_in`, and each further element is the
/// swap output of the previous one over that hop's reserves.  The first
/// hop that fails decides the error of the whole walk.
pub open spec fn forward_amounts(amount_in: i128, hops: Seq<(i128, i128)>) -> Result<
    Seq<i128>,
    QuoteError,
>
    decreases hops.len(),
{
    if hops.len() == 0 {
        Ok(seq![amount_in])
    } else {
        match forward_amounts(amount_in, hops.drop_last()) {
            Err(e) => Err(e),
            Ok(s) => match amount_out_result(s.last(), hops.last().0, hops.last().1) {
                Err(e) => Err(e),
                Ok(v) => Ok(s.push(v)),
            },
        }
    }
}

/// The amounts produced by walking `hops` right to left, ending at
/// `amount_out`: the last element is `amount_out`, and each earlier
/// element is the input required to extract the element after it over
/// that hop's reserves.  The first hop that fails, walking from the end,
/// decides the error of the whole walk.
pub open spec fn backward_amounts(amount_out: i128, hops: Seq<(i128, i128)>) -> Result<
    Seq<i128>,
    QuoteError,
>
    decreases hops.len(),
{
    if hops.len() == 0 {
        Ok(seq![amount_out])
    } else {
        match backward_amounts(amount_out, hops.skip(1)) {
            Err(e) => Err(e),
            Ok(s) => match amount_in_result(s[0], hops[0].0, hops[0].1) {
                Err(e) => Err(e),
                Ok(v) => Ok(seq![v] + s),
            },
        }
    }
}

/// The exact outcome of `get_amounts_out`: a path without hops is
/// invalid, and otherwise the forward walk decides the result.
pub open spec fn amounts_out_result(amount_in: i128, hops: Seq<(i128, i128)>) -> Result<
    Seq<i128>,
    QuoteError,
> {
    if hops.len() == 0 {
        Err(QuoteError::InvalidPath)
    } else {
        forward_amounts(amount_in, hops)
    }
}

/// The exact outcome of `get_amounts_in`: a path without hops is
/// invalid, and otherwise the backward walk decides the result.
pub open spec fn amounts_in_result(amount_out: i128, hops: Seq<(i128, i128)>) -> Result<
    Seq<i128>,
    QuoteError,
> {
    if hops.len() == 0 {
        Err(QuoteError::InvalidPath)
    } else {
        backward_amounts(amount_out, hops)
    }
}

/// Once the forward walk has failed on a prefix of the hops, the walk
/// over the whole hop list fails with that same error.
proof fn lemma_forward_error_persists(amount_in: i128, hops: Seq<(i128, i128)>, j: int)
    requires
        0 <= j <= hops.len(),
        forward_amounts(amount_in, hops.take(j)) matches Err(_),
    ensures
        forward_amounts(amount_in, hops) == forward_amounts(amount_in, hops.take(j)),
    decreases hops.len() - j,
{
    if j == hops.len() {
        assert(hops.take(j) =~= hops);
    } else {
        assert(hops.take(j + 1).drop_last() =~= hops.take(j));
        lemma_forward_error_persists(amount_in, hops, j + 1);
    }
}

/// Once the backward walk has failed on a suffix of the hops, the walk
/// over the whole hop list fails with that same error.
proof fn lemma_backward_error_persists(amount_out: i128, hops: Seq<(i128, i128)>, j: int)
    requires
        0 <= j <= hops.len(),
        backward_amounts(amount_out, hops.skip(j)) matches Err(_),
    ensures
        backward_amounts(amount_out, hops) == backward_amounts(amount_out, hops.skip(j)),
    decreases j,
{
    if j == 0 {
        assert(hops.skip(0) =~= hops);
    } else {
        assert(hops.skip(j - 1).skip(1) =~= hops.skip(j));
        assert(backward_amounts(amount_out, hops.skip(j - 1)) == backward_amounts(
            amount_out,
            hops.skip(j),
        ));
        lemma_backward_error_persists(amount_out, hops, j - 1);
    }
}

/// A successful forward walk yields one amount per path asset: the input
/// first, and each later amount the swap output of the one before it.
proof fn lemma_forward_ok(amount_in: i128, hops: Seq<(i128, i128)>)
    requires
        forward_amounts(amount_in, hops) matches Ok(_),
    ensures
        forward_amounts(amount_in, hops) matches Ok(s) ==> {
            &&& s.len() == hops.len() + 1
            &&& s[0] == amount_in
            &&& forall|i: int|
                0 <= i < hops.len() ==> amount_out_result(s[i], hops[i].0, hops[i].1) == Ok::<
                    i128,
                    QuoteError,
                >(s[i + 1])
        },
    decreases hops.len(),
{
    if hops.len() == 0 {
    } else {
        let prev = forward_amounts(amount_in, hops.drop_last());
        lemma_forward_ok(amount_in, hops.drop_last());
        let s0 = prev->Ok_0;
        let s = forward_amounts(amount_in, hops)->Ok_0;
        assert forall|i: int|
            0 <= i < hops.len() implies amount_out_result(s[i], hops[i].0, hops[i].1) == Ok::<
            i128,
            QuoteError,
        >(s[i + 1]) by {
            if i < hops.len() - 1 {
                assert(hops.drop_last()[i] == hops[i]);
                assert(amount_out_result(s0[i], hops[i].0, hops[i].1) == Ok::<i128, QuoteError>(
                    s0[i + 1],
                ));
            } else {
                assert(s[i] == s0.last());
                assert(hops[i] == hops.last());
            }
        }
    }
}

/// A successful backward walk yields one amount per path asset: the
/// target output last, and each earlier amount the input required for
/// the one after it.
proof fn lemma_backward_ok(amount_out: i128, hops: Seq<(i128, i128)>)
    requires
        backward_amounts(amount_out, hops) matches Ok(_),
    ensures
        backward_amounts(amount_out, hops) matches Ok(s) ==> {
            &&& s.len() == hops.len() + 1
            &&& s.last() == amount_out
            &&& forall|i: int|
                0 <= i < hops.len() ==> amount_in_result(s[i + 1], hops[i].0, hops[i].1) == Ok::<
                    i128,
                    QuoteError,
                >(s[i])
        },
    decreases hops.len(),
{
    if hops.len() == 0 {
    } else {
        let rest = backward_amounts(amount_out, hops.skip(1));
        lemma_backward_ok(amount_out, hops.skip(1));
        let s0 = rest->Ok_0;
        let s = backward_amounts(amount_out, hops)->Ok_0;
        assert(s.last() == s0.last());
        assert forall|i: int|
            0 <= i < hops.len() implies amount_in_result(s[i + 1], hops[i].0, hops[i].1) == Ok::<
            i128,
            QuoteError,
        >(s[i]) by {
            if i == 0 {
                assert(s[1] == s0[0]);
            } else {
                assert(hops.skip(1)[i - 1] == hops[i]);
                assert(s[i + 1] == s0[i]);
                assert(s[i] == s0[i - 1]);
                assert(amount_in_result(s0[i], hops.skip(1)[i - 1].0, hops.skip(1)[i - 1].1)
                    == Ok::<i128, QuoteError>(s0[i - 1]));
            }
        }
    }
}

/// Given an exact input amount and one reserve pair per hop of a path,
/// in path order, returns every amount along the path: element 0 is
/// `amount_in`, and each following element is `get_amount_out` of the
/// previous element over that hop's reserves, computed strictly left to
/// right.
///
/// Fails with `InvalidPath` when `reserves` is empty (a path of fewer
/// than two assets has no hop), and otherwise with the error of the
/// first hop whose swap computation fails; no partial result is
/// returned.
pub fn get_amounts_out(amount_in: i128, reserves: &Vec<(i128, i128)>) -> (r: Result<
    Vec<i128>,
    QuoteError,
>)
    ensures
        r matches Ok(v) ==> amounts_out_result(amount_in, reserves@) == Ok::<Seq<i128>, QuoteError>(
            v@,
        ),
        r matches Err(e) ==> amounts_out_result(amount_in, reserves@) == Err::<
            Seq<i128>,
            QuoteError,
        >(e),
        r matches Ok(v) ==> {
            &&& v@.len() == reserves@.len() + 1
            &&& v@[0] == amount_in
            &&& forall|i: int|
                0 <= i < reserves@.len() ==> amount_out_result(
                    v@[i],
                    reserves@[i].0,
                    reserves@[i].1,
                ) == Ok::<i128, QuoteError>(v@[i + 1])
        },
{
    if reserves.len() == 0 {
        return Err(QuoteError::InvalidPath);
    }
    let mut amounts: Vec<i128> = Vec::new();
    amounts.push(amount_in);
    let n = reserves.len();
    let mut i: usize = 0;
    while i < n
        invariant
            i <= n,
            n == reserves@.len(),
            amounts@.len() == i + 1,
            forward_amounts(amount_in, reserves@.take(i as int)) == Ok::<Seq<i128>, QuoteError>(
                amounts@,
            ),
        decreases n - i,
    {
        let (reserve_in, reserve_out) = reserves[i];
        let prev = amounts[i];
        proof {
            assert(reserves@.take(i + 1).drop_last() =~= reserves@.take(i as int));
            assert(reserves@.take(i + 1).last() == reserves@[i as int]);
        }
        match get_amount_out(prev, reserve_in, reserve_out) {
            Ok(next) => {
                amounts.push(next);
            },
            Err(e) => {
                proof {
                    lemma_forward_error_persists(amount_in, reserves@, i + 1);
                }
                return Err(e);
            },
        }
        i += 1;
    }
    proof {
        assert(reserves@.take(n as int) =~= reserves@);
        lemma_forward_ok(amount_in, reserves@);
    }
    Ok(amounts)
}

/// Given an exact output amount and one reserve pair per hop of a path,
/// in path order, returns every amount along the path: the last element
/// is `amount_out`, and each earlier element is `get_amount_in` of the
/// element after it over that hop's reserves, computed strictly right to
/// left.
///
/// Fails with `InvalidPath` when `reserves` is empty (a path of fewer
/// than two assets has no hop), and otherwise with the error of the
/// first hop, walking from the end, whose swap computation fails; no
/// partial result is returned.
pub fn get_amounts_in(amount_out: i128, reserves: &Vec<(i128, i128)>) -> (r: Result<
    Vec<i128>,
    QuoteError,
>)
    ensures
        r matches Ok(v) ==> amounts_in_result(amount_out, reserves@) == Ok::<Seq<i128>, QuoteError>(
            v@,
        ),
        r matches Err(e) ==> amounts_in_result(amount_out, reserves@) == Err::<
            Seq<i128>,
            QuoteError,
        >(e),
        r matches Ok(v) ==> {
            &&& v@.len() == reserves@.len() + 1
            &&& v@[reserves@.len() as int] == amount_out
            &&& forall|i: int|
                0 <= i < reserves@.len() ==> amount_in_result(
                    v@[i + 1],
                    reserves@[i].0,
                    reserves@[i].1,
                ) == Ok::<i128, QuoteError>(v@[i])
        },
{
    if reserves.len() == 0 {
        return Err(QuoteError::InvalidPath);
    }
    let mut amounts: Vec<i128> = Vec::new();
    amounts.push(amount_out);
    let mut j: usize = reserves.len();
    while j > 0
        invariant
            j <= reserves@.len(),
            amounts@.len() == reserves@.len() - j + 1,
            backward_amounts(amount_out, reserves@.skip(j as int)) == Ok::<Seq<i128>, QuoteError>(
                amounts@,
            ),
        decreases j,
    {
        let (reserve_in, reserve_out) = reserves[j - 1];
        let target = amounts[0];
        proof {
            assert(reserves@.skip(j - 1).skip(1) =~= reserves@.skip(j as int));
            assert(reserves@.skip(j - 1)[0] == reserves@[j - 1]);
        }
        match get_amount_in(target, reserve_in, reserve_out) {
            Ok(needed) => {
                let ghost before = amounts@;
                amounts.insert(0, needed);
                proof {
                    assert(amounts@ =~= seq![needed] + before);
                }
            },
            Err(e) => {
                proof {
                    lemma_backward_error_persists(amount_out, reserves@, j - 1);
                }
                return Err(e);
            },
        }
        j -= 1;
    }
    proof {
        assert(reserves@.skip(0) =~= reserves@);
        lemma_backward_ok(amount_out, reserves@);
    }
    Ok(amounts)
}

} // verus!
