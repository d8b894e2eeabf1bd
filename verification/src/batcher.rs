//! Size-bounded batching: splitting an ordered sequence of operation
//! descriptors into chunks no larger than a configured ceiling, losing
//! nothing, duplicating nothing, and keeping order.

use vstd::prelude::*;

verus! {

/// The number of chunks that a sequence of `len` elements yields under a
/// positive ceiling `limit`: `len / limit` rounded up.
pub open spec fn chunk_count(len: int, limit: int) -> int
    recommends
        limit > 0,
{
    (len + limit - 1) / limit
}

/// The concatenation, in order, of a sequence of chunks.
pub open spec fn concat_chunks<T>(chunks: Seq<Vec<T>>) -> Seq<T> {
    chunks.map_values(|c: Vec<T>| c@).flatten()
}

/// Splits `items` into consecutive runs of exactly `limit` elements, the
/// last run holding the remainder. Concatenating the runs in order gives
/// back `items` exactly: nothing is dropped, duplicated or reordered, and
/// no run is empty unless the input is.
#[verifier::loop_isolation(false)]
pub fn chunk<T>(items: Vec<T>, limit: usize) -> (r: Vec<Vec<T>>)
    requires
        limit > 0,
    ensures
        concat_chunks(r@) == items@,
        r@.len() == chunk_count(items@.len() as int, limit as int),
        forall|j: int| 0 <= j < r@.len() ==> 1 <= #[trigger] r@[j]@.len() <= limit,
        forall|j: int| 0 <= j < r@.len() - 1 ==> #[trigger] r@[j]@.len() == limit,
        forall|j: int| 0 <= j < r@.len() ==> #[trigger] r@[j]@ == items@.subrange(
            j * limit,
            vstd::math::min(items@.len() as int, (j + 1) * limit),
        ),
        items@.len() == 0 ==> r@.len() == 0,
{
    let ghost input: Seq<T> = items@;
    let mut items = items;
    let mut stack: Vec<T> = Vec::new();
    proof {
        assert(items@ =~= input.subrange(0, items@.len() as int));
    }
    while items.len() > 0
        invariant
            items@.len() + stack@.len() == input.len(),
            items@ == input.subrange(0, items@.len() as int),
            forall|k: int| 0 <= k < stack@.len() ==> #[trigger] stack@[k] == input[input.len()
                - 1 - k],
        decreases items@.len(),
    {
        let ghost n = items@.len() as int;
        let x = items.pop().unwrap();
        stack.push(x);
        proof {
            assert(items@ =~= input.subrange(0, n - 1));
        }
    }

    let mut out: Vec<Vec<T>> = Vec::new();
    proof {
        assert(out@.map_values(|c: Vec<T>| c@) =~= Seq::<Seq<T>>::empty());
        assert(concat_chunks(out@) =~= input.subrange(0, 0));
    }
    while stack.len() > 0
        invariant
            stack@.len() <= input.len(),
            forall|k: int| 0 <= k < stack@.len() ==> #[trigger] stack@[k] == input[input.len()
                - 1 - k],
            concat_chunks(out@) == input.subrange(0, input.len() - stack@.len()),
            forall|j: int| 0 <= j < out@.len() ==> 1 <= #[trigger] out@[j]@.len() <= limit,
            stack@.len() > 0 ==> forall|j: int| 0 <= j < out@.len() ==> #[trigger] out@[j]@.len()
                == limit,
            forall|j: int| 0 <= j < out@.len() - 1 ==> #[trigger] out@[j]@.len() == limit,
            forall|j: int| 0 <= j < out@.len() ==> #[trigger] out@[j]@ == input.subrange(
                j * limit,
                j * limit + out@[j]@.len(),
            ),
            input.len() - stack@.len() == if out@.len() == 0 {
                0int
            } else {
                (out@.len() - 1) * limit + out@.last()@.len()
            },
        decreases stack@.len(),
    {
        let ghost start = input.len() - stack@.len();
        proof {
            if out@.len() > 0 {
                assert((out@.len() - 1) * limit + limit == out@.len() * limit) by (nonlinear_arith);
            }
            assert(start == out@.len() * limit);
        }
        let mut cur: Vec<T> = Vec::new();
        proof {
            assert(cur@ =~= input.subrange(start as int, start as int));
        }
        while cur.len() < limit && stack.len() > 0
            invariant
                stack@.len() <= input.len(),
                forall|k: int| 0 <= k < stack@.len() ==> #[trigger] stack@[k] == input[input.len()
                    - 1 - k],
                cur@.len() <= limit,
                start == input.len() - stack@.len() - cur@.len(),
                cur@ == input.subrange(start as int, input.len() - stack@.len()),
            decreases stack@.len(),
        {
            let x = stack.pop().unwrap();
            cur.push(x);
            proof {
                assert(cur@ =~= input.subrange(start as int, input.len() - stack@.len()));
            }
        }
        proof {
            let f = |c: Vec<T>| c@;
            assert(out@.push(cur).map_values(f) =~= out@.map_values(f).push(cur@));
            out@.map_values(f).lemma_flatten_push(cur@);
            let mid = input.len() - stack@.len();
            assert(input.subrange(0, start as int) + input.subrange(start as int, mid as int)
                =~= input.subrange(0, mid as int));
            assert(concat_chunks(out@.push(cur)) == input.subrange(0, mid as int));
        }
        out.push(cur);
    }
    proof {
        assert(input.subrange(0, input.len() as int) =~= input);
        assert(concat_chunks(out@) == input);
        let n = out@.len() as int;
        let k = input.len() as int;
        let l = limit as int;
        if n == 0 {
            assert(k == 0);
            vstd::arithmetic::div_mod::lemma_fundamental_div_mod_converse(l - 1, l, 0, l - 1);
        } else {
            let s = out@.last()@.len() as int;
            assert(k == (n - 1) * l + s);
            assert(k + l - 1 == n * l + (s - 1)) by (nonlinear_arith)
                requires
                    k == (n - 1) * l + s,
            ;
            vstd::arithmetic::div_mod::lemma_fundamental_div_mod_converse(k + l - 1, l, n, s - 1);
        }
        assert forall|j: int| 0 <= j < out@.len() implies #[trigger] out@[j]@ == input.subrange(
            j * limit,
            vstd::math::min(input.len() as int, (j + 1) * limit),
        ) by {
            let s = out@.last()@.len() as int;
            assert(j * l + out@[j]@.len() <= k && (j < n - 1 ==> j * l + out@[j]@.len() == (j + 1)
                * l) && (j == n - 1 ==> j * l + out@[j]@.len() == k && k <= (j + 1) * l))
                by (nonlinear_arith)
                requires
                    0 <= j < n,
                    l > 0,
                    1 <= s <= l,
                    k == (n - 1) * l + s,
                    out@[j]@.len() == if j < n - 1 {
                        l
                    } else {
                        s
                    },
            ;
        }
    }
    out
}

} // verus!
