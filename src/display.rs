//! The text of the display panel: a template whose `{}` placeholders take one
//! value each, in order.
use vstd::prelude::*;

verus! {

/// `b` with its placeholders filled from `values[k..]`: each `{}` takes the
/// next value while one is left; once the values run out, the remaining
/// placeholders stay as they are, and values left over are not shown.
pub open spec fn filled(b: Seq<char>, values: Seq<Vec<char>>, k: int) -> Seq<char>
    decreases b.len(),
{
    if b.len() == 0 {
        Seq::empty()
    } else if b.len() >= 2 && b[0] == '{' && b[1] == '}' && 0 <= k < values.len() {
        values[k]@ + filled(b.skip(2), values, k + 1)
    } else {
        seq![b[0]] + filled(b.skip(1), values, k)
    }
}

/// Fills the placeholders of `blueprint` with `values`, one per placeholder
/// in order.
pub fn fill_placeholders(blueprint: &Vec<char>, values: &Vec<Vec<char>>) -> (r: Vec<char>)
    ensures
        r@ == filled(blueprint@, values@, 0),
{
    let n = blueprint.len();
    let mut out: Vec<char> = Vec::new();
    let mut i: usize = 0;
    let mut k: usize = 0;
    proof {
        assert(blueprint@.skip(0) =~= blueprint@);
    }
    while i < n
        invariant
            n == blueprint@.len(),
            i <= n,
            k <= values@.len(),
            out@ + filled(blueprint@.skip(i as int), values@, k as int) == filled(
                blueprint@,
                values@,
                0,
            ),
        decreases n - i,
    {
        let ghost rest = blueprint@.skip(i as int);
        let ghost before = out@;
        if i + 1 < n && blueprint[i] == '{' && blueprint[i + 1] == '}' && k < values.len() {
            let v = &values[k];
            let m = v.len();
            let mut j: usize = 0;
            while j < m
                invariant
                    m == v@.len(),
                    j <= m,
                    out@ == before + v@.take(j as int),
                decreases m - j,
            {
                out.push(v[j]);
                j = j + 1;
                proof {
                    assert(v@.take(j as int) =~= v@.take(j - 1).push(v@[j - 1]));
                }
            }
            proof {
                assert(v@.take(m as int) =~= v@);
                assert(rest.skip(2) =~= blueprint@.skip(i + 2));
                assert(out@ + filled(blueprint@.skip(i + 2), values@, k + 1) =~= before + (v@
                    + filled(rest.skip(2), values@, k + 1)));
            }
            i = i + 2;
            k = k + 1;
        } else {
            out.push(blueprint[i]);
            proof {
                assert(rest.skip(1) =~= blueprint@.skip(i + 1));
                assert(out@ + filled(blueprint@.skip(i + 1), values@, k as int) =~= before + (seq![
                    blueprint@[i as int],
                ] + filled(rest.skip(1), values@, k as int)));
            }
            i = i + 1;
        }
    }
    proof {
        assert(blueprint@.skip(n as int) =~= Seq::<char>::empty());
        assert(out@ + Seq::<char>::empty() =~= out@);
    }
    out
}

} // verus!
