//! Facts about sequences that the containers and the engine share.
use vstd::prelude::*;

verus! {

/// What a sequence holds after its first item is taken.
pub proof fn drop_first_contains<A>(s: Seq<A>)
    requires
        s.len() > 0,
    ensures
        forall|x: A|
            #![trigger s.contains(x)]
            #![trigger s.drop_first().contains(x)]
            s.contains(x) <==> x == s[0] || s.drop_first().contains(x),
{
    let rest = s.drop_first();
    assert forall|x: A|
        #![trigger s.contains(x)]
        #![trigger rest.contains(x)]
        s.contains(x) <==> x == s[0] || rest.contains(x) by {
        if s.contains(x) {
            let i = choose|i: int| 0 <= i < s.len() && s[i] == x;
            if i > 0 {
                assert(rest[i - 1] == x);
            }
        }
        if rest.contains(x) {
            let i = choose|i: int| 0 <= i < rest.len() && rest[i] == x;
            assert(s[i + 1] == x);
        }
    }
}

/// What a sequence holds after an item is put at its end.
pub proof fn push_contains<A>(s: Seq<A>, item: A)
    ensures
        forall|x: A| #[trigger] s.push(item).contains(x) <==> x == item || s.contains(x),
{
    let longer = s.push(item);
    assert forall|x: A| #[trigger] longer.contains(x) <==> x == item || s.contains(x) by {
        if longer.contains(x) {
            let i = choose|i: int| 0 <= i < longer.len() && longer[i] == x;
            if i < s.len() {
                assert(s[i] == x);
            }
        }
        if s.contains(x) {
            let i = choose|i: int| 0 <= i < s.len() && s[i] == x;
            assert(longer[i] == x);
        }
        assert(longer[s.len() as int] == item);
    }
}

/// The sequence with `item` at its end, unless it holds `item` already.
pub open spec fn add_once<A>(s: Seq<A>, item: A) -> Seq<A> {
    if s.contains(item) {
        s
    } else {
        s.push(item)
    }
}

/// `s` with the first `n` items of `more` added at its end, each unless it
/// is there already.
pub open spec fn add_all_once<A>(s: Seq<A>, more: Seq<A>, n: int) -> Seq<A>
    decreases n,
{
    if n <= 0 || n > more.len() {
        s
    } else {
        add_once(add_all_once(s, more, n - 1), more[n - 1])
    }
}

/// What a sequence holds after an item is added once.
pub proof fn add_once_contains<A>(s: Seq<A>, item: A)
    ensures
        forall|x: A| #[trigger] add_once(s, item).contains(x) <==> x == item || s.contains(x),
{
    push_contains(s, item);
}

/// What a sequence holds after the first `n` of `more` are added once.
pub proof fn add_all_once_contains<A>(s: Seq<A>, more: Seq<A>, n: int)
    requires
        0 <= n <= more.len(),
    ensures
        forall|x: A|
            #[trigger] add_all_once(s, more, n).contains(x) <==> s.contains(x) || more.take(
                n,
            ).contains(x),
    decreases n,
{
    if n > 0 {
        add_all_once_contains(s, more, n - 1);
        let before = add_all_once(s, more, n - 1);
        add_once_contains(before, more[n - 1]);
        let shorter = more.take(n - 1);
        assert(more.take(n) =~= shorter.push(more[n - 1]));
        push_contains(shorter, more[n - 1]);
        assert forall|x: A|
            #[trigger] add_all_once(s, more, n).contains(x) <==> s.contains(x) || more.take(
                n,
            ).contains(x) by {
            assert(before.contains(x) <==> s.contains(x) || shorter.contains(x));
        }
    } else {
        assert(more.take(0) =~= Seq::empty());
    }
}

/// Adding an item once to a sequence that holds no item twice leaves one
/// that holds no item twice.
pub proof fn add_once_distinct<A>(s: Seq<A>, item: A)
    requires
        s.no_duplicates(),
    ensures
        add_once(s, item).no_duplicates(),
{
}

/// Adding items once to a sequence that holds no item twice leaves one that
/// holds no item twice.
pub proof fn add_all_once_distinct<A>(s: Seq<A>, more: Seq<A>, n: int)
    requires
        s.no_duplicates(),
    ensures
        add_all_once(s, more, n).no_duplicates(),
    decreases n,
{
    if 0 < n <= more.len() {
        add_all_once_distinct(s, more, n - 1);
        add_once_distinct(add_all_once(s, more, n - 1), more[n - 1]);
    }
}

} // verus!
