use vstd::prelude::*;

verus! {

/// The sum of a sequence of machine integers, as a mathematical integer.
pub open spec fn sum_usizes(s: Seq<usize>) -> int
    decreases s.len(),
{
    if s.len() == 0 {
        0
    } else {
        sum_usizes(s.drop_last()) + s.last()
    }
}

/// The largest element of a sequence; zero when it is empty.
pub open spec fn max_usizes(s: Seq<usize>) -> int
    decreases s.len(),
{
    if s.len() == 0 {
        0
    } else if s.last() >= max_usizes(s.drop_last()) {
        s.last() as int
    } else {
        max_usizes(s.drop_last())
    }
}

/// A prefix never sums to more than the whole sequence.
pub proof fn lemma_sum_prefix(s: Seq<usize>, k: int)
    requires
        0 <= k <= s.len(),
    ensures
        sum_usizes(s.take(k)) <= sum_usizes(s),
    decreases s.len() - k,
{
    if k == s.len() {
        assert(s.take(k) =~= s);
    } else {
        assert(s.take(k + 1).drop_last() =~= s.take(k));
        assert(s.take(k + 1).last() == s[k]);
        lemma_sum_prefix(s, k + 1);
    }
}

/// Sum a vector of machine integers; `None` exactly when the sum does not
/// fit in `usize`.
pub fn sum_checked(v: &Vec<usize>) -> (r: Option<usize>)
    ensures
        r is Some <==> sum_usizes(v@) <= usize::MAX,
        r is Some ==> r->0 == sum_usizes(v@),
{
    let n = v.len();
    let mut acc: usize = 0;
    let mut i: usize = 0;
    proof {
        assert(v@.take(0) =~= Seq::<usize>::empty());
    }
    while i < n
        invariant
            0 <= i <= n,
            n == v@.len(),
            acc == sum_usizes(v@.take(i as int)),
        decreases n - i,
    {
        proof {
            assert(v@.take(i as int + 1).drop_last() =~= v@.take(i as int));
            assert(v@.take(i as int + 1).last() == v@[i as int]);
        }
        match acc.checked_add(v[i]) {
            Some(a) => {
                acc = a;
            },
            None => {
                proof {
                    lemma_sum_prefix(v@, i as int + 1);
                }
                return None;
            },
        }
        i = i + 1;
    }
    proof {
        assert(v@.take(n as int) =~= v@);
    }
    Some(acc)
}

/// The largest element of a vector; `None` exactly when it is empty.
pub fn max_checked(v: &Vec<usize>) -> (r: Option<usize>)
    ensures
        r is Some <==> v@.len() > 0,
        r is Some ==> r->0 == max_usizes(v@),
{
    let n = v.len();
    if n == 0 {
        return None;
    }
    let mut best: usize = 0;
    let mut i: usize = 0;
    proof {
        assert(v@.take(0) =~= Seq::<usize>::empty());
    }
    while i < n
        invariant
            0 <= i <= n,
            n == v@.len(),
            best == max_usizes(v@.take(i as int)) || (i == 0 && best == 0),
            i > 0 ==> best == max_usizes(v@.take(i as int)),
            best >= 0,
        decreases n - i,
    {
        proof {
            assert(v@.take(i as int + 1).drop_last() =~= v@.take(i as int));
            assert(v@.take(i as int + 1).last() == v@[i as int]);
        }
        if v[i] > best || i == 0 {
            best = v[i];
        }
        i = i + 1;
    }
    proof {
        assert(v@.take(n as int) =~= v@);
    }
    Some(best)
}

/// Does `v` occur in `s`?
pub open spec fn from_input(s: Seq<usize>, v: usize) -> bool {
    exists|j: int| 0 <= j < s.len() && v == s[j]
}

/// An occurrence in a prefix is an occurrence in the longer prefix.
proof fn lemma_from_input_prefix(s: Seq<usize>, i: int, v: usize)
    requires
        0 <= i < s.len(),
        from_input(s.take(i), v),
    ensures
        from_input(s.take(i + 1), v),
{
    let j = choose|j: int| 0 <= j < s.take(i).len() && v == s.take(i)[j];
    assert(s.take(i + 1)[j] == s[j]);
}

/// The `N` largest values of the input, in descending order; duplicates
/// keep their multiplicity: the result is a sub-multiset of the input,
/// and everything left unselected is at most the smallest selected
/// value.
#[verifier::rlimit(60)]
pub fn max_n<const N: usize>(from: &Vec<usize>) -> (r: [usize; N])
    requires
        N >= 1,
        from@.len() >= N,
    ensures
        forall|a: int, b: int| 0 <= a < b < N ==> (#[trigger] r@[a]) >= (#[trigger] r@[b]),
        forall|k: int| 0 <= k < N ==> #[trigger] from_input(from@, r@[k]),
        forall|v: usize|
            #[trigger] r@.to_multiset().count(v) <= from@.to_multiset().count(v),
        forall|v: usize|
            from@.to_multiset().count(v) > #[trigger] r@.to_multiset().count(v) ==> v <= r@[
                N as int - 1
            ],
{
    broadcast use vstd::seq_lib::group_to_multiset_ensures;

    let n = from.len();
    let mut best: Vec<usize> = Vec::new();
    let mut i: usize = 0;
    while i < n
        invariant
            N >= 1,
            0 <= i <= n,
            n == from@.len(),
            best@.len() == (if i < N {
                i as int
            } else {
                N as int
            }),
            forall|a: int, b: int|
                0 <= a < b < best@.len() ==> (#[trigger] best@[a]) >= (#[trigger] best@[b]),
            forall|k: int|
                0 <= k < best@.len() ==> #[trigger] from_input(from@.take(i as int), best@[k]),
            forall|v: usize|
                #[trigger] best@.to_multiset().count(v) <= from@.take(
                    i as int,
                ).to_multiset().count(v),
            forall|v: usize|
                from@.take(i as int).to_multiset().count(v)
                    > #[trigger] best@.to_multiset().count(v) ==> best@.len() == N && v <= best@[
                    N as int - 1
                ],
        decreases n - i,
    {
        let item = from[i];
        let mut pos: usize = 0;
        while pos < best.len() && best[pos] >= item
            invariant
                0 <= pos <= best@.len(),
                forall|a: int| 0 <= a < pos ==> (#[trigger] best@[a]) >= item,
            decreases best@.len() - pos,
        {
            pos = pos + 1;
        }
        if pos < N {
            let ghost old_best = best@;
            let ghost old_p = from@.take(i as int);
            best.insert(pos, item);
            let ghost mid = best@;
            proof {
                mid.to_multiset_ensures();
                mid.remove(pos as int).to_multiset_ensures();
                old_best.to_multiset_ensures();
                assert(mid.remove(pos as int) =~= old_best);
                assert(mid[pos as int] == item);
                assert(mid.contains(item));
                assert(mid.to_multiset().contains(item));
                assert forall|v: usize| #[trigger] mid.to_multiset().count(v) == old_best.to_multiset().count(
                    v,
                ) + (if v == item {
                    1int
                } else {
                    0int
                }) by {
                    assert(mid.remove(pos as int).to_multiset() =~= mid.to_multiset().remove(item));
                }
            }
            let ghost popped: usize = if mid.len() > N { mid.last() } else { 0 };
            if best.len() > N {
                proof {
                    mid.to_multiset_ensures();
                    mid.remove(mid.len() as int - 1).to_multiset_ensures();
                    assert(mid.last() == old_best[N as int - 1]);
                    assert(mid.drop_last() =~= mid.remove(mid.len() as int - 1));
                    assert(mid.remove(mid.len() as int - 1).to_multiset() =~= mid.to_multiset().remove(
                        mid.last(),
                    ));
                }
                best.pop();
            }
            proof {
                old_p.to_multiset_ensures();
                from@.take(i as int + 1).to_multiset_ensures();
                assert(from@.take(i as int + 1).drop_last() =~= old_p);
                assert(from@.take(i as int + 1).last() == item);
                assert(from@.take(i as int + 1) =~= old_p.push(item));
                assert(from@.take(i as int + 1).to_multiset() =~= old_p.push(item).to_multiset());
                assert(old_p.push(item).to_multiset() =~= old_p.to_multiset().insert(item));
                assert forall|k: int|
                    0 <= k < best@.len() implies #[trigger] from_input(
                    from@.take(i as int + 1),
                    best@[k],
                ) by {
                    if k < pos {
                        assert(best@[k] == old_best[k]);
                        lemma_from_input_prefix(from@, i as int, best@[k]);
                    } else if k == pos {
                        assert(best@[k] == item);
                        assert(from@.take(i as int + 1)[i as int] == from@[i as int]);
                    } else {
                        assert(best@[k] == old_best[k - 1]);
                        lemma_from_input_prefix(from@, i as int, best@[k]);
                    }
                }
                assert forall|a: int, b: int|
                    0 <= a < b < best@.len() implies (#[trigger] best@[a]) >= (
                #[trigger] best@[b]) by {
                    if b < pos {
                    } else if a < pos && b == pos {
                        assert(best@[a] == old_best[a] >= item);
                    } else if a == pos && b > pos {
                        assert(best@[b] == old_best[b - 1]);
                        assert(pos < old_best.len() ==> old_best[pos as int] < item);
                        assert(old_best[b - 1] <= old_best[pos as int] || b - 1 == pos);
                    } else if a > pos {
                        assert(best@[a] == old_best[a - 1] && best@[b] == old_best[b - 1]);
                    }
                }
            }
        } else {
            proof {
                assert(best@.len() == N);
                assert forall|k: int|
                    0 <= k < best@.len() implies #[trigger] from_input(
                    from@.take(i as int + 1),
                    best@[k],
                ) by {
                    lemma_from_input_prefix(from@, i as int, best@[k]);
                }
                from@.take(i as int).to_multiset_ensures();
                assert(from@.take(i as int + 1).drop_last() =~= from@.take(i as int));
                assert(from@.take(i as int + 1).last() == item);
                assert(from@.take(i as int + 1) =~= from@.take(i as int).push(item));
                assert(from@.take(i as int + 1).to_multiset() =~= from@.take(
                    i as int,
                ).push(item).to_multiset());
                assert(from@.take(i as int).push(item).to_multiset() =~= from@.take(
                    i as int,
                ).to_multiset().insert(item));
                assert(pos == N);
                assert(best@[N as int - 1] >= item);
            }
        }
        i = i + 1;
    }
    proof {
        assert(from@.take(n as int) =~= from@);
    }
    let mut r: [usize; N] = [0; N];
    let mut k: usize = 0;
    proof {
        assert(best@.len() == N);
    }
    while k < N
        invariant
            0 <= k <= N,
            best@.len() == N,
            n == from@.len() >= N,
            forall|a: int, b: int|
                0 <= a < b < N ==> (#[trigger] best@[a]) >= (#[trigger] best@[b]),
            forall|kk: int| 0 <= kk < N ==> #[trigger] from_input(from@, best@[kk]),
            forall|kk: int| 0 <= kk < k ==> (#[trigger] r@[kk]) == best@[kk],
        decreases N - k,
    {
        r[k] = best[k];
        k = k + 1;
    }
    proof {
        assert forall|kk: int| 0 <= kk < N implies #[trigger] from_input(from@, r@[kk]) by {
            assert(r@[kk] == best@[kk]);
            assert(from_input(from@, best@[kk]));
        }
        assert(r@ =~= best@);
    }
    r
}


/// Are all bytes decimal digits?
pub open spec fn all_digits(s: Seq<u8>) -> bool {
    forall|i: int| 0 <= i < s.len() ==> 48 <= #[trigger] s[i] <= 57
}

/// The number a string of decimal digits denotes.
pub open spec fn spec_digits_val(s: Seq<u8>) -> int
    decreases s.len(),
{
    if s.len() == 0 {
        0
    } else {
        spec_digits_val(s.drop_last()) * 10 + (s.last() - 48)
    }
}

/// A digit string denotes a non-negative number.
pub proof fn lemma_digits_val_nonneg(s: Seq<u8>)
    requires
        all_digits(s),
    ensures
        spec_digits_val(s) >= 0,
    decreases s.len(),
{
    if s.len() > 0 {
        assert(all_digits(s.drop_last()));
        lemma_digits_val_nonneg(s.drop_last());
        assert(spec_digits_val(s.drop_last()) * 10 + (s.last() - 48) >= 0) by (nonlinear_arith)
            requires
                spec_digits_val(s.drop_last()) >= 0,
                s.last() >= 48,
        ;
    }
}

/// Digit values are non-negative and grow along a prefix.
pub proof fn lemma_digits_val_prefix(s: Seq<u8>, k: int)
    requires
        0 <= k <= s.len(),
        all_digits(s),
    ensures
        0 <= spec_digits_val(s.take(k)) <= spec_digits_val(s),
    decreases s.len(),
{
    assert(all_digits(s.take(k)));
    lemma_digits_val_nonneg(s.take(k));
    if k == s.len() {
        assert(s.take(k) =~= s);
    } else {
        assert(all_digits(s.drop_last()));
        assert(s.drop_last().take(k) =~= s.take(k));
        lemma_digits_val_prefix(s.drop_last(), k);
        lemma_digits_val_nonneg(s.drop_last());
        assert(spec_digits_val(s.drop_last()) * 10 + (s.last() - 48) >= spec_digits_val(
            s.drop_last(),
        )) by (nonlinear_arith)
            requires
                spec_digits_val(s.drop_last()) >= 0,
                s.last() >= 48,
        ;
    }
}

/// Parse the decimal number in `v[from..to]`; `None` when the range is
/// empty, holds a stray byte, or denotes a value over `usize::MAX`.
pub fn parse_usize_in(v: &Vec<u8>, from: usize, to: usize) -> (r: Option<usize>)
    requires
        from <= to <= v@.len(),
    ensures
        r is Some ==> {
            let s = v@.subrange(from as int, to as int);
            &&& s.len() > 0
            &&& all_digits(s)
            &&& r->0 == spec_digits_val(s)
        },
        r is None ==> {
            let s = v@.subrange(from as int, to as int);
            s.len() == 0 || !all_digits(s) || spec_digits_val(s) > usize::MAX
        },
{
    let ghost s = v@.subrange(from as int, to as int);
    if from == to {
        return None;
    }
    let mut acc: usize = 0;
    let mut i: usize = from;
    proof {
        assert(s.take(0) =~= Seq::<u8>::empty());
    }
    while i < to
        invariant
            from <= i <= to <= v@.len(),
            s == v@.subrange(from as int, to as int),
            forall|j: int| 0 <= j < i - from ==> 48 <= #[trigger] s[j] <= 57,
            acc == spec_digits_val(s.take(i - from)),
        decreases to - i,
    {
        let b = v[i];
        proof {
            assert(s[i - from] == v@[i as int]);
            assert(s.take(i - from + 1).drop_last() =~= s.take(i - from));
            assert(s.take(i - from + 1).last() == s[i - from]);
        }
        if !(48 <= b && b <= 57) {
            return None;
        }
        let step = match acc.checked_mul(10) {
            Some(x) => x.checked_add((b - 48) as usize),
            None => None,
        };
        match step {
            Some(x) => {
                acc = x;
            },
            None => {
                proof {
                    assert(all_digits(s) ==> spec_digits_val(s) > usize::MAX) by {
                        if all_digits(s) {
                            lemma_digits_val_prefix(s, i - from + 1);
                        }
                    }
                }
                return None;
            },
        }
        i = i + 1;
    }
    proof {
        assert(s.take(to - from) =~= s);
    }
    Some(acc)
}

} // verus!
