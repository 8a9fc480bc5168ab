//! Ascending order: texts are ordered character by character, paths by
//! their components, and a list is arranged by inserting its items one
//! after the other, each behind the items that do not come after it.

use vstd::prelude::*;
use crate::text::to_chars;

verus! {

/// The rank by which characters are ordered: their code. In a path the
/// separator `/` ranks first, so that paths are ordered component by
/// component.
pub open spec fn rank(c: char, in_path: bool) -> int {
    if in_path && c == '/' {
        0
    } else {
        c as u32 + 1
    }
}

/// Whether the text `a` comes before the text `b`: at the first place
/// where they differ `a` has the character of lower rank, or `a` ends
/// there and `b` does not.
pub open spec fn comes_before(a: Seq<char>, b: Seq<char>, in_path: bool) -> bool
    decreases a.len(),
{
    if b.len() == 0 {
        false
    } else if a.len() == 0 {
        true
    } else if a[0] != b[0] {
        rank(a[0], in_path) < rank(b[0], in_path)
    } else {
        comes_before(a.drop_first(), b.drop_first(), in_path)
    }
}

/// No text comes before itself.
pub proof fn lemma_not_before_itself(a: Seq<char>, in_path: bool)
    ensures
        !comes_before(a, a, in_path),
    decreases a.len(),
{
    if a.len() > 0 {
        lemma_not_before_itself(a.drop_first(), in_path);
    }
}

/// What comes before a text that comes before a third comes before the
/// third.
pub proof fn lemma_before_is_transitive(a: Seq<char>, b: Seq<char>, c: Seq<char>, in_path: bool)
    requires
        comes_before(a, b, in_path),
        comes_before(b, c, in_path),
    ensures
        comes_before(a, c, in_path),
    decreases a.len(),
{
    if a.len() > 0 && a[0] == b[0] && b[0] == c[0] {
        lemma_before_is_transitive(a.drop_first(), b.drop_first(), c.drop_first(), in_path);
    }
}

/// Different characters have different ranks.
pub proof fn lemma_ranks_differ(x: char, y: char, in_path: bool)
    requires
        x != y,
    ensures
        rank(x, in_path) != rank(y, in_path),
{
    if x as u32 == y as u32 {
        assert(x as u32 as char == y as u32 as char);
    }
}

/// Of two different texts one comes before the other.
pub proof fn lemma_one_comes_first(a: Seq<char>, b: Seq<char>, in_path: bool)
    requires
        a != b,
    ensures
        comes_before(a, b, in_path) || comes_before(b, a, in_path),
    decreases a.len(),
{
    if a.len() == 0 || b.len() == 0 {
        if a.len() == 0 && b.len() == 0 {
            assert(a =~= b);
        }
    } else if a[0] == b[0] {
        if a.drop_first() == b.drop_first() {
            assert(a =~= seq![a[0]] + a.drop_first());
            assert(b =~= seq![b[0]] + b.drop_first());
        }
        lemma_one_comes_first(a.drop_first(), b.drop_first(), in_path);
    } else {
        lemma_ranks_differ(a[0], b[0], in_path);
    }
}

/// The order of texts, or of paths, as a relation.
pub open spec fn text_order(in_path: bool) -> spec_fn(Seq<char>, Seq<char>) -> bool {
    |a: Seq<char>, b: Seq<char>| comes_before(a, b, in_path)
}

fn char_rank(c: char, in_path: bool) -> (r: u32)
    ensures
        r == rank(c, in_path),
{
    if in_path && c == '/' {
        0
    } else {
        let code: u32 = c as u32;
        code + 1
    }
}

/// Whether `a` comes before `b`.
pub fn text_comes_before(a: &str, b: &str, in_path: bool) -> (r: bool)
    ensures
        r == comes_before(a@, b@, in_path),
{
    let x = to_chars(a);
    let y = to_chars(b);
    let mut i: usize = 0;
    assert(x@.skip(0) =~= x@);
    assert(y@.skip(0) =~= y@);
    while i < x.len() && i < y.len()
        invariant
            i <= x.len(),
            i <= y.len(),
            x@ == a@,
            y@ == b@,
            comes_before(a@, b@, in_path) == comes_before(
                x@.skip(i as int),
                y@.skip(i as int),
                in_path,
            ),
        decreases x.len() - i,
    {
        assert(x@.skip(i as int)[0] == x@[i as int]);
        assert(y@.skip(i as int)[0] == y@[i as int]);
        if x[i] != y[i] {
            return char_rank(x[i], in_path) < char_rank(y[i], in_path);
        }
        assert(x@.skip(i as int).drop_first() =~= x@.skip(i + 1));
        assert(y@.skip(i as int).drop_first() =~= y@.skip(i + 1));
        i = i + 1;
    }
    assert(x@.skip(i as int).len() == x.len() - i);
    assert(y@.skip(i as int).len() == y.len() - i);
    i < y.len()
}

/// Where `x` goes among `s`: in front of the first item that comes after
/// it, and so behind every item that is its equal.
pub open spec fn place_of<T>(s: Seq<T>, x: T, before: spec_fn(T, T) -> bool) -> int
    decreases s.len(),
{
    if s.len() == 0 {
        0
    } else if before(x, s[0]) {
        0
    } else {
        1 + place_of(s.drop_first(), x, before)
    }
}

/// The items in ascending order. Items of which none comes before the
/// other keep the order in which they stand in `items`.
pub open spec fn arranged<T>(items: Seq<T>, before: spec_fn(T, T) -> bool) -> Seq<T>
    decreases items.len(),
{
    if items.len() == 0 {
        Seq::empty()
    } else {
        arranged(items.drop_last(), before).insert(
            place_of(arranged(items.drop_last(), before), items.last(), before),
            items.last(),
        )
    }
}

/// Whether no item of `s` comes before one that stands in front of it.
pub open spec fn ascending<T>(s: Seq<T>, before: spec_fn(T, T) -> bool) -> bool {
    forall|i: int, j: int| 0 <= i < j < s.len() ==> !before(#[trigger] s[j], #[trigger] s[i])
}

/// Whether every item of `s` comes before all that stand behind it.
pub open spec fn strictly_ascending<T>(s: Seq<T>, before: spec_fn(T, T) -> bool) -> bool {
    forall|i: int, j: int| 0 <= i < j < s.len() ==> before(#[trigger] s[i], #[trigger] s[j])
}

/// Whether `before` is an order: nothing comes before itself, and what
/// comes before an item that comes before a third comes before the third.
pub open spec fn transitive<T>(before: spec_fn(T, T) -> bool) -> bool {
    &&& forall|a: T| !#[trigger] before(a, a)
    &&& forall|a: T, b: T, c: T|
        #![trigger before(a, b), before(b, c)]
        before(a, b) && before(b, c) ==> before(a, c)
}

/// The place of an item is the first place whose item comes after it.
pub proof fn lemma_place_of<T>(s: Seq<T>, x: T, before: spec_fn(T, T) -> bool)
    ensures
        0 <= place_of(s, x, before) <= s.len(),
        forall|j: int| 0 <= j < place_of(s, x, before) ==> !before(x, #[trigger] s[j]),
        place_of(s, x, before) < s.len() ==> before(x, s[place_of(s, x, before)]),
    decreases s.len(),
{
    if s.len() > 0 && !before(x, s[0]) {
        let rest = s.drop_first();
        lemma_place_of(rest, x, before);
        assert forall|j: int| 0 <= j < place_of(s, x, before) implies !before(
            x,
            #[trigger] s[j],
        ) by {
            if j > 0 {
                assert(rest[j - 1] == s[j]);
            }
        }
        if place_of(s, x, before) < s.len() {
            assert(rest[place_of(rest, x, before)] == s[place_of(s, x, before)]);
        }
    }
}

/// A place with an item that comes after `x`, and none in front of it that
/// does, is the place of `x`.
pub proof fn lemma_place_is<T>(s: Seq<T>, x: T, before: spec_fn(T, T) -> bool, p: int)
    requires
        0 <= p <= s.len(),
        forall|j: int| 0 <= j < p ==> !before(x, #[trigger] s[j]),
        p < s.len() ==> before(x, s[p]),
    ensures
        place_of(s, x, before) == p,
{
    lemma_place_of(s, x, before);
    let q = place_of(s, x, before);
    if q < p {
        assert(!before(x, s[q]));
    } else if q > p {
        assert(!before(x, s[p]));
    }
}

/// Arranging keeps the items, each as often as it occurs, and puts them
/// in ascending order.
pub proof fn lemma_arranged<T>(items: Seq<T>, before: spec_fn(T, T) -> bool)
    requires
        transitive(before),
    ensures
        arranged(items, before).len() == items.len(),
        ascending(arranged(items, before), before),
        forall|x: T| arranged(items, before).contains(x) <==> items.contains(x),
        items.no_duplicates() ==> arranged(items, before).no_duplicates(),
    decreases items.len(),
{
    if items.len() > 0 {
        let rest = items.drop_last();
        let x = items.last();
        let sorted = arranged(rest, before);
        lemma_arranged(rest, before);
        lemma_place_of(sorted, x, before);
        let p = place_of(sorted, x, before);
        let now = arranged(items, before);
        assert(now == sorted.insert(p, x));
        sorted.insert_ensures(p, x);
        assert forall|i: int, j: int| 0 <= i < j < now.len() implies !before(
            #[trigger] now[j],
            #[trigger] now[i],
        ) by {
            if j == p {
                assert(now[i] == sorted[i]);
            } else if i == p {
                assert(now[j] == sorted[j - 1]);
                if p < j - 1 {
                    assert(!before(sorted[j - 1], sorted[p]));
                }
                if before(sorted[j - 1], x) {
                    assert(before(x, sorted[p]));
                    assert(before(sorted[j - 1], sorted[p]));
                    assert(!before(sorted[p], sorted[p]));
                }
            } else {
                let a = if i < p {
                    i
                } else {
                    i - 1
                };
                let b = if j < p {
                    j
                } else {
                    j - 1
                };
                assert(now[i] == sorted[a]);
                assert(now[j] == sorted[b]);
            }
        }
        assert forall|y: T| now.contains(y) <==> items.contains(y) by {
            if now.contains(y) {
                let k = choose|k: int| 0 <= k < now.len() && now[k] == y;
                if k == p {
                    assert(items[items.len() - 1] == y);
                } else {
                    let a = if k < p {
                        k
                    } else {
                        k - 1
                    };
                    assert(sorted[a] == y);
                    assert(sorted.contains(y));
                    assert(rest.contains(y));
                    let r = choose|r: int| 0 <= r < rest.len() && rest[r] == y;
                    assert(items[r] == y);
                }
            }
            if items.contains(y) {
                let k = choose|k: int| 0 <= k < items.len() && items[k] == y;
                if k == items.len() - 1 {
                    assert(now[p] == y);
                } else {
                    assert(rest[k] == y);
                    assert(rest.contains(y));
                    assert(sorted.contains(y));
                    let a = choose|a: int| 0 <= a < sorted.len() && sorted[a] == y;
                    if a < p {
                        assert(now[a] == y);
                    } else {
                        assert(now[a + 1] == y);
                    }
                }
            }
        }
        if items.no_duplicates() {
            assert(rest.no_duplicates());
            assert(!rest.contains(x)) by {
                if rest.contains(x) {
                    let r = choose|r: int| 0 <= r < rest.len() && rest[r] == x;
                    assert(items[r] == items[items.len() - 1]);
                }
            }
            assert(!sorted.contains(x));
            assert forall|i: int, j: int| 0 <= i < now.len() && 0 <= j < now.len() && i
                != j implies now[i] != now[j] by {
                let a = if i < p {
                    i
                } else {
                    i - 1
                };
                let b = if j < p {
                    j
                } else {
                    j - 1
                };
                if i == p {
                    assert(now[j] == sorted[b]);
                    assert(sorted.contains(sorted[b]));
                } else if j == p {
                    assert(now[i] == sorted[a]);
                    assert(sorted.contains(sorted[a]));
                } else {
                    assert(now[i] == sorted[a]);
                    assert(now[j] == sorted[b]);
                }
            }
        }
    }
}

/// The order of texts is an order.
pub proof fn lemma_text_order_is_transitive(in_path: bool)
    ensures
        transitive(text_order(in_path)),
{
    let before = text_order(in_path);
    assert forall|a: Seq<char>| !#[trigger] before(a, a) by {
        lemma_not_before_itself(a, in_path);
    }
    assert forall|a: Seq<char>, b: Seq<char>, c: Seq<char>|
        #![trigger before(a, b), before(b, c)]
        before(a, b) && before(b, c) implies before(a, c) by {
        lemma_before_is_transitive(a, b, c, in_path);
    }
}

/// Texts without duplicates, arranged, stand in strictly ascending order:
/// each comes before all behind it.
pub proof fn lemma_arranged_texts(items: Seq<Seq<char>>, in_path: bool)
    ensures
        arranged(items, text_order(in_path)).len() == items.len(),
        ascending(arranged(items, text_order(in_path)), text_order(in_path)),
        forall|x: Seq<char>|
            arranged(items, text_order(in_path)).contains(x) <==> items.contains(x),
        items.no_duplicates() ==> arranged(items, text_order(in_path)).no_duplicates()
            && strictly_ascending(arranged(items, text_order(in_path)), text_order(in_path)),
{
    let before = text_order(in_path);
    lemma_text_order_is_transitive(in_path);
    lemma_arranged(items, before);
    let s = arranged(items, before);
    if items.no_duplicates() {
        assert forall|i: int, j: int| 0 <= i < j < s.len() implies before(
            #[trigger] s[i],
            #[trigger] s[j],
        ) by {
            lemma_one_comes_first(s[i], s[j], in_path);
            assert(!before(s[j], s[i]));
        }
    }
}

fn place_for_text(sorted: &Vec<String>, x: &String, in_path: bool) -> (p: usize)
    ensures
        p == place_of(sorted.deep_view(), x@, text_order(in_path)),
        p <= sorted.len(),
{
    let ghost all = sorted.deep_view();
    let mut j: usize = 0;
    while j < sorted.len()
        invariant
            j <= sorted.len(),
            all == sorted.deep_view(),
            forall|k: int| 0 <= k < j ==> !comes_before(x@, #[trigger] all[k], in_path),
        decreases sorted.len() - j,
    {
        assert(all[j as int] == sorted@[j as int]@);
        if text_comes_before(x.as_str(), sorted[j].as_str(), in_path) {
            proof {
                lemma_place_is(all, x@, text_order(in_path), j as int);
            }
            return j;
        }
        j = j + 1;
    }
    proof {
        lemma_place_is(all, x@, text_order(in_path), j as int);
    }
    j
}

/// The texts in ascending order; as paths when `in_path` is set.
pub fn sort_texts(items: &Vec<String>, in_path: bool) -> (r: Vec<String>)
    ensures
        r.deep_view() == arranged(items.deep_view(), text_order(in_path)),
{
    let ghost all = items.deep_view();
    let mut out: Vec<String> = Vec::new();
    let mut i: usize = 0;
    assert(out.deep_view() =~= arranged(all.take(0), text_order(in_path)));
    while i < items.len()
        invariant
            i <= items.len(),
            all == items.deep_view(),
            out.deep_view() == arranged(all.take(i as int), text_order(in_path)),
        decreases items.len() - i,
    {
        let p = place_for_text(&out, &items[i], in_path);
        let ghost before = out.deep_view();
        assert(all[i as int] == items@[i as int]@);
        out.insert(p, items[i].clone());
        assert(out.deep_view() =~= before.insert(p as int, all[i as int]));
        assert(all.take(i + 1).drop_last() =~= all.take(i as int));
        assert(all.take(i + 1).last() == all[i as int]);
        i = i + 1;
    }
    assert(all.take(items.len() as int) =~= all);
    out
}

/// Arranging items with distinct keys leaves the keys distinct.
pub proof fn lemma_arranged_keys<T, K>(
    items: Seq<T>,
    before: spec_fn(T, T) -> bool,
    key: spec_fn(T) -> K,
)
    requires
        transitive(before),
        Seq::new(items.len(), |i: int| key(items[i])).no_duplicates(),
    ensures
        Seq::new(
            arranged(items, before).len(),
            |i: int| key(arranged(items, before)[i]),
        ).no_duplicates(),
{
    let keys = Seq::new(items.len(), |i: int| key(items[i]));
    let sorted = arranged(items, before);
    let sorted_keys = Seq::new(sorted.len(), |i: int| key(sorted[i]));
    assert forall|a: int, b: int| 0 <= a < items.len() && 0 <= b < items.len() && a
        != b implies items[a] != items[b] by {
        assert(keys[a] != keys[b]);
    }
    lemma_arranged(items, before);
    assert forall|i: int, j: int| 0 <= i < sorted.len() && 0 <= j < sorted.len() && i
        != j implies sorted_keys[i] != sorted_keys[j] by {
        assert(sorted.contains(sorted[i]));
        assert(sorted.contains(sorted[j]));
        assert(items.contains(sorted[i]));
        assert(items.contains(sorted[j]));
        let a = choose|a: int| 0 <= a < items.len() && items[a] == sorted[i];
        let b = choose|b: int| 0 <= b < items.len() && items[b] == sorted[j];
        assert(keys[a] == key(items[a]));
        assert(keys[b] == key(items[b]));
        assert(sorted[i] != sorted[j]);
    }
}

} // verus!
