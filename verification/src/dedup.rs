//! Removing repeated elements from a sequence while keeping the order in
//! which the elements first occur.

use vstd::prelude::*;

verus! {

/// `s` with `x` appended, unless `x` already occurs in `s`.
pub open spec fn push_unique<A>(s: Seq<A>, x: A) -> Seq<A> {
    if s.contains(x) {
        s
    } else {
        s.push(x)
    }
}

/// The elements of `s`, each once, in the order of their first occurrence.
pub open spec fn stable_dedup<A>(s: Seq<A>) -> Seq<A>
    decreases s.len(),
{
    if s.len() == 0 {
        Seq::empty()
    } else {
        push_unique(stable_dedup(s.drop_last()), s.last())
    }
}

/// Appending one element to the input appends it to the output if it is new.
pub proof fn lemma_stable_dedup_push<A>(s: Seq<A>, x: A)
    ensures
        stable_dedup(s.push(x)) == push_unique(stable_dedup(s), x),
{
    assert(s.push(x).drop_last() =~= s);
}

/// The output holds exactly the elements of the input.
pub proof fn lemma_stable_dedup_members<A>(s: Seq<A>)
    ensures
        forall|x: A| #[trigger] stable_dedup(s).contains(x) <==> s.contains(x),
    decreases s.len(),
{
    if s.len() > 0 {
        let front = s.drop_last();
        let last = s.last();
        lemma_stable_dedup_members(front);
        let d = stable_dedup(front);
        assert forall|x: A| #[trigger] stable_dedup(s).contains(x) <==> s.contains(x) by {
            if s.contains(x) {
                let i = choose|i: int| 0 <= i < s.len() && s[i] == x;
                if i < s.len() - 1 {
                    assert(front[i] == x);
                    assert(front.contains(x));
                    assert(d.contains(x));
                    if !d.contains(last) {
                        let j = choose|j: int| 0 <= j < d.len() && d[j] == x;
                        assert(d.push(last)[j] == x);
                    }
                } else {
                    assert(x == last);
                    if !d.contains(last) {
                        assert(d.push(last)[d.len() as int] == last);
                    }
                }
            }
            if stable_dedup(s).contains(x) {
                let j = choose|j: int| 0 <= j < stable_dedup(s).len() && stable_dedup(s)[j] == x;
                if j < d.len() {
                    assert(d[j] == x);
                    assert(d.contains(x));
                    assert(front.contains(x));
                    let i = choose|i: int| 0 <= i < front.len() && front[i] == x;
                    assert(s[i] == x);
                } else {
                    assert(x == last);
                    assert(s[s.len() - 1] == x);
                }
            }
        }
    }
}

/// No element occurs twice in the output.
pub proof fn lemma_stable_dedup_distinct<A>(s: Seq<A>)
    ensures
        stable_dedup(s).no_duplicates(),
    decreases s.len(),
{
    if s.len() > 0 {
        lemma_stable_dedup_distinct(s.drop_last());
    }
}

/// The place at which `x` first stands in `s`, or the length of `s` if it
/// stands nowhere.
pub open spec fn first_position<A>(s: Seq<A>, x: A) -> int
    decreases s.len(),
{
    if s.len() == 0 {
        0
    } else {
        let before = first_position(s.drop_last(), x);
        if before < s.len() - 1 {
            before
        } else if s.last() == x {
            s.len() - 1
        } else {
            s.len() as int
        }
    }
}

/// `first_position` is the first place of `x`: `x` stands there, and nowhere
/// before; if `x` is not in `s`, it is the length of `s`.
pub proof fn lemma_first_position<A>(s: Seq<A>, x: A)
    ensures
        0 <= first_position(s, x) <= s.len(),
        first_position(s, x) < s.len() <==> s.contains(x),
        first_position(s, x) < s.len() ==> s[first_position(s, x)] == x,
        forall|k: int| 0 <= k < first_position(s, x) ==> #[trigger] s[k] != x,
    decreases s.len(),
{
    if s.len() > 0 {
        let front = s.drop_last();
        lemma_first_position(front, x);
        assert forall|k: int| 0 <= k < first_position(s, x) implies #[trigger] s[k] != x by {
            if k < front.len() {
                assert(front[k] == s[k]);
            }
        }
        if first_position(s, x) < s.len() {
            if first_position(front, x) < front.len() {
                assert(front[first_position(front, x)] == s[first_position(s, x)]);
            }
        }
        if s.contains(x) {
            let i = choose|i: int| 0 <= i < s.len() && s[i] == x;
            if i < front.len() {
                assert(front[i] == x);
                assert(front.contains(x));
            }
        }
    }
}

/// The output keeps the order of the first occurrences: of two elements of
/// the output, the one that stands first is the one that the input holds
/// first.
pub proof fn lemma_stable_dedup_order<A>(s: Seq<A>)
    ensures
        forall|i: int, j: int|
            0 <= i < j < stable_dedup(s).len() ==> first_position(
                s,
                #[trigger] stable_dedup(s)[i],
            ) < first_position(s, #[trigger] stable_dedup(s)[j]),
    decreases s.len(),
{
    if s.len() > 0 {
        let front = s.drop_last();
        let last = s.last();
        let d = stable_dedup(front);
        lemma_stable_dedup_order(front);
        lemma_stable_dedup_members(front);
        assert forall|i: int, j: int| 0 <= i < j < stable_dedup(s).len() implies first_position(
            s,
            #[trigger] stable_dedup(s)[i],
        ) < first_position(s, #[trigger] stable_dedup(s)[j]) by {
            let x = stable_dedup(s)[i];
            let y = stable_dedup(s)[j];
            assert(d[i] == x);
            assert(d.contains(x));
            lemma_first_position(front, x);
            lemma_first_position(front, y);
            lemma_first_position(s, y);
            if j < d.len() {
                assert(d[j] == y);
                assert(d.contains(y));
            } else {
                assert(y == last);
                assert(!d.contains(last));
                assert(s[s.len() - 1] == y);
            }
        }
    }
}

/// A sequence without repeated elements is left as it is.
pub proof fn lemma_stable_dedup_of_distinct<A>(s: Seq<A>)
    requires
        s.no_duplicates(),
    ensures
        stable_dedup(s) == s,
    decreases s.len(),
{
    if s.len() > 0 {
        let front = s.drop_last();
        lemma_stable_dedup_of_distinct(front);
        if front.contains(s.last()) {
            let i = choose|i: int| 0 <= i < front.len() && front[i] == s.last();
            assert(s[i] == s[s.len() - 1]);
        }
        assert(front.push(s.last()) =~= s);
    } else {
        assert(s =~= Seq::empty());
    }
}

/// Removing repeated elements a second time changes nothing.
pub proof fn lemma_stable_dedup_idempotent<A>(s: Seq<A>)
    ensures
        stable_dedup(stable_dedup(s)) == stable_dedup(s),
{
    lemma_stable_dedup_distinct(s);
    lemma_stable_dedup_of_distinct(stable_dedup(s));
}

} // verus!
