//! Orders, and sorting by them.
use vstd::prelude::*;

use std::cmp::Ordering;

use crate::keys::lemma_picked;

verus! {

/// How one thing stands to another.
#[derive(Debug, Clone, Copy, PartialEq, Eq, Structural)]
pub enum Rank {
    Before,
    Level,
    After,
}

/// How two optional numbers stand to each other: by size, and a number before none.
pub open spec fn option_rank(left: Option<i64>, right: Option<i64>) -> Rank {
    match (left, right) {
        (Some(a), Some(b)) => if a < b {
            Rank::Before
        } else if a == b {
            Rank::Level
        } else {
            Rank::After
        },
        (Some(_), None) => Rank::Before,
        (None, Some(_)) => Rank::After,
        (None, None) => Rank::Level,
    }
}

/// How two optional numbers stand to each other, the smaller first and none last.
pub fn compare_option_i64(left: Option<i64>, right: Option<i64>) -> (r: Ordering)
    ensures
        r == (match option_rank(left, right) {
            Rank::Before => Ordering::Less,
            Rank::Level => Ordering::Equal,
            Rank::After => Ordering::Greater,
        }),
{
    match (left, right) {
        (Some(a), Some(b)) => if a < b {
            Ordering::Less
        } else if a == b {
            Ordering::Equal
        } else {
            Ordering::Greater
        },
        (Some(_), None) => Ordering::Less,
        (None, Some(_)) => Ordering::Greater,
        (None, None) => Ordering::Equal,
    }
}

/// How two optional numbers stand to each other in the opposite order: none first, then the
/// larger.
pub fn compare_option_i64_desc(left: Option<i64>, right: Option<i64>) -> (r: Ordering)
    ensures
        r == (match option_rank(right, left) {
            Rank::Before => Ordering::Less,
            Rank::Level => Ordering::Equal,
            Rank::After => Ordering::Greater,
        }),
{
    compare_option_i64(right, left)
}

/// How two optional numbers rank, the smaller first and none last.
pub fn rank_options(left: Option<i64>, right: Option<i64>) -> (r: Rank)
    ensures
        r == option_rank(left, right),
{
    match compare_option_i64(left, right) {
        Ordering::Less => Rank::Before,
        Ordering::Equal => Rank::Level,
        Ordering::Greater => Rank::After,
    }
}

/// How two optional numbers rank in the opposite order.
pub fn rank_options_desc(left: Option<i64>, right: Option<i64>) -> (r: Rank)
    ensures
        r == option_rank(right, left),
{
    match compare_option_i64_desc(left, right) {
        Ordering::Less => Rank::Before,
        Ordering::Equal => Rank::Level,
        Ordering::Greater => Rank::After,
    }
}

/// The first rank that tells, or else the second.
pub open spec fn first_telling(first: Rank, second: Rank) -> Rank {
    match first {
        Rank::Level => second,
        _ => first,
    }
}

/// The first rank that tells, or else the second.
pub fn telling(first: Rank, second: Rank) -> (r: Rank)
    ensures
        r == first_telling(first, second),
{
    match first {
        Rank::Level => second,
        _ => first,
    }
}

/// How two texts stand to each other, by their characters from the first on.
pub open spec fn text_rank(left: Seq<char>, right: Seq<char>) -> Rank
    decreases left.len(),
{
    if left.len() == 0 {
        if right.len() == 0 {
            Rank::Level
        } else {
            Rank::Before
        }
    } else if right.len() == 0 {
        Rank::After
    } else if left[0] == right[0] {
        text_rank(left.drop_first(), right.drop_first())
    } else if left[0] < right[0] {
        Rank::Before
    } else {
        Rank::After
    }
}

/// How two texts stand to each other.
pub fn rank_texts(left: &Vec<char>, right: &Vec<char>) -> (r: Rank)
    ensures
        r == text_rank(left@, right@),
{
    let mut i: usize = 0;
    assert(left@.skip(0) =~= left@);
    assert(right@.skip(0) =~= right@);
    loop
        invariant
            i <= left@.len(),
            i <= right@.len(),
            text_rank(left@, right@) == text_rank(left@.skip(i as int), right@.skip(i as int)),
        decreases left@.len() - i,
    {
        let ghost l = left@.skip(i as int);
        let ghost r = right@.skip(i as int);
        if i == left.len() {
            if i == right.len() {
                return Rank::Level;
            }
            return Rank::Before;
        }
        if i == right.len() {
            return Rank::After;
        }
        assert(l[0] == left@[i as int] && r[0] == right@[i as int]);
        let a = left[i];
        let b = right[i];
        if a < b {
            return Rank::Before;
        }
        if b < a {
            return Rank::After;
        }
        assert(l.drop_first() =~= left@.skip(i + 1));
        assert(r.drop_first() =~= right@.skip(i + 1));
        i += 1;
    }
}

/// An order that sorting can rely on.
pub open spec fn is_weak_order<A>(order: spec_fn(A, A) -> Rank) -> bool {
    &&& forall|a: A, b: A| (#[trigger] order(a, b) == Rank::Before) == (order(b, a)
        == Rank::After)
    &&& forall|a: A, b: A, c: A|
        #![trigger order(a, c), order(b, c)]
        order(a, c) == Rank::Before ==> order(a, b) == Rank::Before || order(b, c)
            == Rank::Before
}

/// Nothing comes before what it should come after.
pub open spec fn is_sorted_by<A>(s: Seq<A>, order: spec_fn(A, A) -> Rank) -> bool {
    forall|i: int, j: int|
        0 <= i < j < s.len() ==> order(#[trigger] s[i], #[trigger] s[j]) != Rank::After
}

/// Those of a list that rank with one.
pub open spec fn ranking_with<A>(s: Seq<A>, order: spec_fn(A, A) -> Rank, x: A) -> Seq<A> {
    s.filter(|y: A| order(x, y) == Rank::Level)
}

/// A list is another one sorted: it holds the same, in order, and those that rank the same
/// keep their order.
pub open spec fn is_stable_sort<A>(
    before: Seq<A>,
    after: Seq<A>,
    order: spec_fn(A, A) -> Rank,
) -> bool {
    &&& after.to_multiset() == before.to_multiset()
    &&& is_sorted_by(after, order)
    &&& forall|x: A| #[trigger] ranking_with(after, order, x) == ranking_with(before, order, x)
}

/// Something that can be sorted by an order, with what is worked out once for each entry.
pub trait Ranked: View + Sized {
    /// What the entries are sorted by.
    type By;

    /// What is worked out once for an entry.
    type Note;

    /// How two entries stand to each other.
    spec fn order(by: Self::By) -> spec_fn(Self::V, Self::V) -> Rank;

    /// What was worked out belongs to the entry.
    spec fn noted(note: Self::Note, entry: Self::V) -> bool;

    /// The order can be relied on.
    proof fn lemma_order(by: Self::By)
        ensures
            is_weak_order(Self::order(by)),
    ;

    /// Works out once what the order needs of an entry.
    fn note(&self) -> (r: Self::Note)
        ensures
            Self::noted(r, self@),
    ;

    /// How two entries stand to each other.
    fn rank(by: &Self::By, a: &Self, a_note: &Self::Note, b: &Self, b_note: &Self::Note) -> (r:
        Rank)
        requires
            Self::noted(*a_note, a@),
            Self::noted(*b_note, b@),
        ensures
            r == Self::order(*by)(a@, b@),
    ;
}

/// What a list of entries says.
pub open spec fn ranked_views<T: Ranked>(s: Seq<T>) -> Seq<T::V> {
    s.map_values(|e: T| e@)
}

/// Picking from a list with one entry put in.
proof fn lemma_filter_insert<A>(s: Seq<A>, i: int, x: A, pred: spec_fn(A) -> bool)
    requires
        0 <= i <= s.len(),
        pred(x) ==> forall|j: int| i <= j < s.len() ==> !pred(#[trigger] s[j]),
    ensures
        s.insert(i, x).filter(pred) == if pred(x) {
            s.filter(pred).push(x)
        } else {
            s.filter(pred)
        },
{
    let a = s.take(i);
    let b = s.skip(i);
    assert(s =~= a + b);
    assert(s.insert(i, x) =~= a.push(x) + b);
    Seq::filter_distributes_over_add(a, b, pred);
    Seq::filter_distributes_over_add(a.push(x), b, pred);
    a.lemma_filter_push(x, pred);
    if pred(x) {
        assert forall|j: int| 0 <= j < b.len() implies !pred(#[trigger] b[j]) by {
            assert(b[j] == s[i + j]);
        }
        lemma_filter_none(b, pred);
    }
}

/// Nothing is picked where nothing fits.
proof fn lemma_filter_none<A>(s: Seq<A>, pred: spec_fn(A) -> bool)
    requires
        forall|j: int| 0 <= j < s.len() ==> !pred(#[trigger] s[j]),
    ensures
        s.filter(pred) == Seq::<A>::empty(),
    decreases s.len(),
{
    reveal(Seq::filter);
    if s.len() > 0 {
        lemma_filter_none(s.drop_last(), pred);
    }
}

/// Putting one more entry in its place keeps a list sorted.
proof fn lemma_insert_sorted<A>(
    before: Seq<A>,
    after: Seq<A>,
    order: spec_fn(A, A) -> Rank,
    x: A,
    i: int,
)
    requires
        is_weak_order(order),
        is_stable_sort(before, after, order),
        0 <= i <= after.len(),
        i > 0 ==> order(x, after[i - 1]) != Rank::Before,
        forall|j: int| i <= j < after.len() ==> order(x, #[trigger] after[j]) == Rank::Before,
    ensures
        is_stable_sort(before.push(x), after.insert(i, x), order),
{
    let more = after.insert(i, x);
    vstd::seq_lib::to_multiset_insert(after, i, x);
    before.to_multiset_ensures();
    assert(more.to_multiset() =~= before.push(x).to_multiset());
    assert forall|a: int, b: int| 0 <= a < b < more.len() implies order(
        #[trigger] more[a],
        #[trigger] more[b],
    ) != Rank::After by {
        if a == i {
            assert(more[b] == after[b - 1]);
        } else if b == i {
            assert(more[a] == after[a]);
            if order(after[a], x) == Rank::After {
                assert(order(x, after[a]) == Rank::Before);
                if a < i - 1 {
                    assert(order(x, after[i - 1]) == Rank::Before || order(
                        after[i - 1],
                        after[a],
                    ) == Rank::Before);
                    assert(order(after[a], after[i - 1]) == Rank::After);
                }
            }
        } else {
            let a1 = if a < i { a } else { a - 1 };
            let b1 = if b < i { b } else { b - 1 };
            assert(more[a] == after[a1] && more[b] == after[b1]);
        }
    }
    assert forall|y: A| #[trigger] ranking_with(more, order, y) == ranking_with(
        before.push(x),
        order,
        y,
    ) by {
        let pred = |z: A| order(y, z) == Rank::Level;
        assert(ranking_with(after, order, y) == ranking_with(before, order, y));
        before.lemma_filter_push(x, pred);
        if pred(x) {
            assert forall|j: int| i <= j < after.len() implies !pred(#[trigger] after[j]) by {
                assert(order(x, after[j]) == Rank::Before);
                assert(order(x, y) == Rank::Before || order(y, after[j]) == Rank::Before);
                if order(x, y) == Rank::Before {
                    assert(order(y, x) == Rank::After);
                }
            }
        }
        lemma_filter_insert(after, i, x, pred);
    }
}

/// Sorts a list. Entries that rank the same keep their order.
pub fn sort_stably<T: Ranked>(list: Vec<T>, by: &T::By) -> (r: Vec<T>)
    ensures
        is_stable_sort(ranked_views(list@), ranked_views(r@), T::order(*by)),
{
    let ghost all = ranked_views(list@);
    let ghost whole = list@;
    let ghost order = T::order(*by);
    proof {
        T::lemma_order(*by);
    }
    let mut sorted: Vec<T> = Vec::new();
    let mut notes: Vec<T::Note> = Vec::new();
    assert(ranked_views(sorted@) =~= all.take(0));
    for entry in it: list
        invariant
            it.seq() == whole,
            all == ranked_views(whole),
            order == T::order(*by),
            is_weak_order(order),
            sorted@.len() == notes@.len(),
            forall|k: int| 0 <= k < notes@.len() ==> T::noted(#[trigger] notes@[k], sorted@[k]@),
            is_stable_sort(all.take(it.index() as int), ranked_views(sorted@), order),
    {
        let ghost done = it.index() as int;
        let note = entry.note();
        let mut i: usize = sorted.len();
        let ghost views = ranked_views(sorted@);
        while i > 0
            invariant
                i <= sorted@.len(),
                views == ranked_views(sorted@),
                order == T::order(*by),
                sorted@.len() == notes@.len(),
                T::noted(note, entry@),
                forall|k: int| 0 <= k < notes@.len() ==> T::noted(#[trigger] notes@[k], sorted@[k]@),
                forall|j: int|
                    i <= j < views.len() ==> order(entry@, #[trigger] views[j]) == Rank::Before,
            ensures
                i > 0 ==> order(entry@, views[i - 1]) != Rank::Before,
            decreases i,
        {
            assert(views[i - 1] == sorted@[i - 1]@);
            match T::rank(by, &entry, &note, &sorted[i - 1], &notes[i - 1]) {
                Rank::Before => {
                    i -= 1;
                },
                _ => {
                    break;
                },
            }
        }
        proof {
            lemma_insert_sorted(all.take(done), views, order, entry@, i as int);
            assert(all.take(done + 1) =~= all.take(done).push(entry@));
            assert(ranked_views(sorted@.insert(i as int, entry)) =~= views.insert(
                i as int,
                entry@,
            ));
        }
        sorted.insert(i, entry);
        notes.insert(i, note);
    }
    assert(all.take(all.len() as int) =~= all);
    sorted
}

/// Of three texts, one before another is before or after any third.
pub proof fn lemma_text_rank(a: Seq<char>, b: Seq<char>, c: Seq<char>)
    ensures
        (text_rank(a, b) == Rank::Before) == (text_rank(b, a) == Rank::After),
        text_rank(a, c) == Rank::Before ==> text_rank(a, b) == Rank::Before || text_rank(
            b,
            c,
        ) == Rank::Before,
        text_rank(a, b) == Rank::Level ==> a == b,
    decreases a.len() + b.len() + c.len(),
{
    if a.len() > 0 && b.len() > 0 && a[0] == b[0] {
        lemma_text_rank(
            a.drop_first(),
            b.drop_first(),
            if c.len() > 0 {
                c.drop_first()
            } else {
                c
            },
        );
        if text_rank(a, b) == Rank::Level {
            assert(a =~= seq![a[0]] + a.drop_first());
            assert(b =~= seq![b[0]] + b.drop_first());
        }
    }
    if text_rank(a, b) == Rank::Level {
        assert(a =~= b);
    }
}

/// A list can be sorted in one way only: two lists that are the same one sorted are the same.
pub proof fn law_stable_sort_is_unique<A>(
    before: Seq<A>,
    first: Seq<A>,
    second: Seq<A>,
    order: spec_fn(A, A) -> Rank,
)
    requires
        is_weak_order(order),
        is_stable_sort(before, first, order),
        is_stable_sort(before, second, order),
    ensures
        first == second,
{
    assert forall|x: A| #[trigger] ranking_with(first, order, x) == ranking_with(
        second,
        order,
        x,
    ) by {
        assert(ranking_with(first, order, x) == ranking_with(before, order, x));
        assert(ranking_with(second, order, x) == ranking_with(before, order, x));
    }
    lemma_sorted_by_ranks(first, second, order);
}

/// Two sorted lists in which the same entries rank with each entry are the same.
proof fn lemma_sorted_by_ranks<A>(first: Seq<A>, second: Seq<A>, order: spec_fn(A, A) -> Rank)
    requires
        is_weak_order(order),
        is_sorted_by(first, order),
        is_sorted_by(second, order),
        forall|x: A| #[trigger] ranking_with(first, order, x) == ranking_with(second, order, x),
    ensures
        first == second,
    decreases first.len(),
{
    if first.len() == 0 {
        if second.len() > 0 {
            lemma_ranks_with_itself(second, 0, order);
            assert(ranking_with(first, order, second[0]) == ranking_with(second, order, second[0]));
            lemma_filter_none(first, |y: A| order(second[0], y) == Rank::Level);
        }
        assert(first =~= second);
    } else if second.len() == 0 {
        lemma_ranks_with_itself(first, 0, order);
        assert(ranking_with(first, order, first[0]) == ranking_with(second, order, first[0]));
        lemma_filter_none(second, |y: A| order(first[0], y) == Rank::Level);
    } else {
        let a = first[0];
        let b = second[0];
        lemma_in_both(second, first, 0, order);
        lemma_in_both(first, second, 0, order);
        let i = choose|i: int| 0 <= i < first.len() && first[i] == b;
        let j = choose|j: int| 0 <= j < second.len() && second[j] == a;
        assert(order(b, b) == Rank::Level);
        assert(order(a, b) != Rank::After) by {
            if i > 0 {
                assert(order(first[0], first[i]) != Rank::After);
            }
        }
        assert(order(b, a) != Rank::After) by {
            if j > 0 {
                assert(order(second[0], second[j]) != Rank::After);
            }
        }
        assert(order(a, b) == Rank::Level);
        let pred = |y: A| order(a, y) == Rank::Level;
        let tail1 = first.drop_first();
        let tail2 = second.drop_first();
        assert(first =~= seq![a] + tail1);
        assert(second =~= seq![b] + tail2);
        assert(order(a, a) == Rank::Level);
        tail1.lemma_filter_prepend(a, pred);
        tail2.lemma_filter_prepend(b, pred);
        assert(ranking_with(first, order, a) == ranking_with(second, order, a));
        assert(first.filter(pred)[0] == a);
        assert(second.filter(pred)[0] == b);
        assert(a == b);
        assert forall|x: A| #[trigger] ranking_with(tail1, order, x) == ranking_with(
            tail2,
            order,
            x,
        ) by {
            let near = |y: A| order(x, y) == Rank::Level;
            tail1.lemma_filter_prepend(a, near);
            tail2.lemma_filter_prepend(a, near);
            assert(ranking_with(first, order, x) == ranking_with(second, order, x));
            let head = if near(a) {
                seq![a]
            } else {
                Seq::empty()
            };
            assert(head + tail1.filter(near) == head + tail2.filter(near));
            assert(tail1.filter(near) =~= (head + tail1.filter(near)).skip(head.len() as int));
            assert(tail2.filter(near) =~= (head + tail2.filter(near)).skip(head.len() as int));
        }
        assert(is_sorted_by(tail1, order)) by {
            assert forall|p: int, q: int| 0 <= p < q < tail1.len() implies order(
                #[trigger] tail1[p],
                #[trigger] tail1[q],
            ) != Rank::After by {
                assert(tail1[p] == first[p + 1] && tail1[q] == first[q + 1]);
            }
        }
        assert(is_sorted_by(tail2, order)) by {
            assert forall|p: int, q: int| 0 <= p < q < tail2.len() implies order(
                #[trigger] tail2[p],
                #[trigger] tail2[q],
            ) != Rank::After by {
                assert(tail2[p] == second[p + 1] && tail2[q] == second[q + 1]);
            }
        }
        lemma_sorted_by_ranks(tail1, tail2, order);
    }
}

/// An entry of a list is among those that rank with it.
proof fn lemma_ranks_with_itself<A>(s: Seq<A>, i: int, order: spec_fn(A, A) -> Rank)
    requires
        is_weak_order(order),
        0 <= i < s.len(),
    ensures
        ranking_with(s, order, s[i]).contains(s[i]),
{
    assert(order(s[i], s[i]) == Rank::Level);
    assert(s.contains(s[i]));
    lemma_picked(s, |y: A| order(s[i], y) == Rank::Level);
}

/// An entry of one of two lists in which the same entries rank with each is in the other.
proof fn lemma_in_both<A>(s: Seq<A>, t: Seq<A>, i: int, order: spec_fn(A, A) -> Rank)
    requires
        is_weak_order(order),
        0 <= i < s.len(),
        ranking_with(s, order, s[i]) == ranking_with(t, order, s[i]),
    ensures
        t.contains(s[i]),
{
    lemma_ranks_with_itself(s, i, order);
    lemma_picked(t, |y: A| order(s[i], y) == Rank::Level);
}

/// One text comes before another if and only if it is the start of it, or has the smaller
/// character at the first place where they differ; and the same rank is for the same text.
pub proof fn law_texts_rank_by_their_characters(left: Seq<char>, right: Seq<char>)
    ensures
        text_rank(left, right) == Rank::Level <==> left == right,
        text_rank(left, right) == Rank::Before <==> exists|n: int|
            #![trigger left.take(n)]
            0 <= n <= left.len() && n < right.len() && left.take(n) == right.take(n) && (n
                == left.len() || left[n] < right[n]),
    decreases left.len(),
{
    if left.len() > 0 && right.len() > 0 && left[0] == right[0] {
        let l = left.drop_first();
        let r = right.drop_first();
        law_texts_rank_by_their_characters(l, r);
        if l == r {
            assert(left =~= seq![left[0]] + l);
            assert(right =~= seq![right[0]] + r);
        }
        if text_rank(l, r) == Rank::Before {
            let n = choose|n: int|
                #![trigger l.take(n)]
                0 <= n <= l.len() && n < r.len() && l.take(n) == r.take(n) && (n == l.len() || l[n]
                    < r[n]);
            assert(left.take(n + 1) =~= seq![left[0]] + l.take(n));
            assert(right.take(n + 1) =~= seq![right[0]] + r.take(n));
        }
        if exists|n: int|
            #![trigger left.take(n)]
            0 <= n <= left.len() && n < right.len() && left.take(n) == right.take(n) && (n
                == left.len() || left[n] < right[n]) {
            let n = choose|n: int|
                #![trigger left.take(n)]
                0 <= n <= left.len() && n < right.len() && left.take(n) == right.take(n) && (n
                    == left.len() || left[n] < right[n]);
            assert(n > 0);
            assert(l.take(n - 1) =~= left.take(n).drop_first());
            assert(r.take(n - 1) =~= right.take(n).drop_first());
        }
    } else if left.len() == 0 {
        if right.len() > 0 {
            assert(left.take(0) =~= right.take(0));
        } else {
            assert(left =~= right);
        }
    } else if right.len() > 0 {
        assert(left.take(0) =~= right.take(0));
        assert forall|n: int|
            #![trigger left.take(n)]
            0 <= n <= left.len() && n < right.len() && left.take(n) == right.take(n) && (n
                == left.len() || left[n] < right[n]) implies n == 0 by {
            if n > 0 {
                assert(left.take(n)[0] == right.take(n)[0]);
            }
        }
    }
}

/// Numbers rank by size and a number before none; in the opposite order none comes first, and
/// then the larger.
pub proof fn law_numbers_rank_by_size(left: Option<i64>, right: Option<i64>)
    ensures
        option_rank(left, right) == Rank::Level <==> left == right,
        option_rank(left, right) == Rank::Before <==> left is Some && (right matches Some(b)
            ==> left->0 < b),
        option_rank(left, right) == Rank::Before <==> option_rank(right, left) == Rank::After,
{
}

} // verus!
