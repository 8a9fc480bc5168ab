//! Small searches over lists of texts that several rules share.

use vstd::prelude::*;

verus! {

/// The texts that begin with `prefix`.
pub open spec fn with_prefix(prefix: Seq<char>) -> spec_fn(Seq<char>) -> bool {
    |t: Seq<char>| prefix.is_prefix_of(t)
}

/// The ids that name neither a test nor a unit test.
pub open spec fn not_a_test() -> spec_fn(Seq<char>) -> bool {
    |t: Seq<char>| !"test."@.is_prefix_of(t) && !"unit_test."@.is_prefix_of(t)
}

/// The values that `s` holds, in order.
pub open spec fn present<T>(s: Seq<Option<T>>) -> Seq<T>
    decreases s.len(),
{
    if s.len() == 0 {
        Seq::empty()
    } else {
        match s.last() {
            Some(v) => present(s.drop_last()).push(v),
            None => present(s.drop_last()),
        }
    }
}

/// The sequence of one optional value.
pub open spec fn optional<T>(o: Option<T>) -> Seq<T> {
    match o {
        Some(v) => seq![v],
        None => Seq::empty(),
    }
}

/// Filtering one element more keeps it or not by the predicate.
pub proof fn lemma_filter_step<T>(s: Seq<T>, pred: spec_fn(T) -> bool, i: int)
    requires
        0 <= i < s.len(),
    ensures
        s.take(i + 1).filter(pred) == if pred(s[i]) {
            s.take(i).filter(pred).push(s[i])
        } else {
            s.take(i).filter(pred)
        },
{
    reveal(Seq::filter);
    assert(s.take(i + 1).drop_last() =~= s.take(i));
    assert(s.take(i + 1).last() == s[i]);
}

/// Collecting one entry more appends its value if it holds one.
pub proof fn lemma_present_step<T>(s: Seq<Option<T>>, i: int)
    requires
        0 <= i < s.len(),
    ensures
        present(s.take(i + 1)) == match s[i] {
            Some(v) => present(s.take(i)).push(v),
            None => present(s.take(i)),
        },
{
    assert(s.take(i + 1).drop_last() =~= s.take(i));
    assert(s.take(i + 1).last() == s[i]);
}

/// The texts of `items` that begin with `prefix`, in order.
pub fn filter_prefixed(items: &Vec<String>, prefix: &str) -> (r: Vec<String>)
    ensures
        r.deep_view() == items.deep_view().filter(with_prefix(prefix@)),
{
    let ghost all = items.deep_view();
    let ghost pred = with_prefix(prefix@);
    let mut out: Vec<String> = Vec::new();
    let mut i: usize = 0;
    assert(all.take(0).filter(pred) =~= Seq::empty()) by {
        reveal(Seq::filter);
    }
    while i < items.len()
        invariant
            i <= items.len(),
            all == items.deep_view(),
            pred == with_prefix(prefix@),
            out.deep_view() == all.take(i as int).filter(pred),
        decreases items.len() - i,
    {
        proof {
            lemma_filter_step(all, pred, i as int);
        }
        if crate::text::starts_with(items[i].as_str(), prefix) {
            let ghost before = out.deep_view();
            out.push(items[i].clone());
            assert(out.deep_view() =~= before.push(all[i as int]));
        }
        i = i + 1;
    }
    assert(all.take(items.len() as int) =~= all);
    out
}

/// How many of `items` begin with `prefix`.
pub fn count_prefixed(items: &Vec<String>, prefix: &str) -> (r: usize)
    ensures
        r == items.deep_view().filter(with_prefix(prefix@)).len(),
{
    let ghost all = items.deep_view();
    let ghost pred = with_prefix(prefix@);
    let mut count: usize = 0;
    let mut i: usize = 0;
    assert(all.take(0).filter(pred) =~= Seq::empty()) by {
        reveal(Seq::filter);
    }
    while i < items.len()
        invariant
            i <= items.len(),
            count <= i,
            all == items.deep_view(),
            pred == with_prefix(prefix@),
            count == all.take(i as int).filter(pred).len(),
        decreases items.len() - i,
    {
        proof {
            lemma_filter_step(all, pred, i as int);
        }
        if crate::text::starts_with(items[i].as_str(), prefix) {
            count = count + 1;
        }
        i = i + 1;
    }
    assert(all.take(items.len() as int) =~= all);
    count
}

/// How many of `items` name neither a test nor a unit test.
pub fn count_not_tests(items: &Vec<String>) -> (r: usize)
    ensures
        r == items.deep_view().filter(not_a_test()).len(),
{
    let ghost all = items.deep_view();
    let ghost pred = not_a_test();
    let mut count: usize = 0;
    let mut i: usize = 0;
    assert(all.take(0).filter(pred) =~= Seq::empty()) by {
        reveal(Seq::filter);
    }
    while i < items.len()
        invariant
            i <= items.len(),
            count <= i,
            all == items.deep_view(),
            pred == not_a_test(),
            count == all.take(i as int).filter(pred).len(),
        decreases items.len() - i,
    {
        proof {
            lemma_filter_step(all, pred, i as int);
        }
        if !crate::text::starts_with(items[i].as_str(), "test.") && !crate::text::starts_with(
            items[i].as_str(),
            "unit_test.",
        ) {
            count = count + 1;
        }
        i = i + 1;
    }
    assert(all.take(items.len() as int) =~= all);
    count
}

/// A copy of `items` whose texts are those of `items`.
pub fn copy_texts(items: &Vec<String>) -> (r: Vec<String>)
    ensures
        r.deep_view() == items.deep_view(),
{
    let out = crate::text::clone_texts(items);
    assert(out.deep_view() =~= items.deep_view());
    out
}

/// Whether `items` holds the text `key`.
pub fn has_text(items: &Vec<String>, key: &String) -> (r: bool)
    ensures
        r == items.deep_view().contains(key@),
{
    let ghost all = items.deep_view();
    let mut i: usize = 0;
    while i < items.len()
        invariant
            i <= items.len(),
            all == items.deep_view(),
            forall|j: int| 0 <= j < i ==> #[trigger] all[j] != key@,
        decreases items.len() - i,
    {
        if items[i] == *key {
            assert(all[i as int] == key@);
            return true;
        }
        i = i + 1;
    }
    false
}

/// The first `n` of `lines`, each indented by four spaces and ended by a
/// line break.
pub open spec fn indented(lines: Seq<Seq<char>>, n: int) -> Seq<char>
    decreases n,
{
    if n <= 0 {
        Seq::empty()
    } else {
        indented(lines, n - 1) + "    "@ + lines[n - 1] + "\n"@
    }
}

pub fn indent_lines(lines: &Vec<String>) -> (r: String)
    ensures
        r@ == indented(lines.deep_view(), lines.len() as int),
{
    let ghost all = lines.deep_view();
    let mut out = String::new();
    let mut i: usize = 0;
    while i < lines.len()
        invariant
            i <= lines.len(),
            all == lines.deep_view(),
            out@ == indented(all, i as int),
        decreases lines.len() - i,
    {
        assert(all[i as int] == lines@[i as int]@);
        out = out.concat("    ").concat(lines[i].as_str()).concat("\n");
        i = i + 1;
    }
    out
}

/// Those of the first `n` items for which `keep` holds, each once, as
/// they are found.
pub open spec fn picked_once<T>(items: Seq<T>, keep: spec_fn(T) -> bool, n: int) -> Seq<T>
    decreases n,
{
    if n <= 0 {
        Seq::empty()
    } else {
        let before = picked_once(items, keep, n - 1);
        if keep(items[n - 1]) && !before.contains(items[n - 1]) {
            before.push(items[n - 1])
        } else {
            before
        }
    }
}

/// Whether `x` is one of the first `n` of `items`.
pub open spec fn among<T>(items: Seq<T>, n: int, x: T) -> bool {
    exists|i: int| 0 <= i < n && i < items.len() && #[trigger] items[i] == x
}

/// What is picked holds no item twice, and holds exactly the items among
/// the first `n` for which `keep` holds.
pub proof fn lemma_picked_once<T>(items: Seq<T>, keep: spec_fn(T) -> bool, n: int)
    requires
        0 <= n <= items.len(),
    ensures
        picked_once(items, keep, n).no_duplicates(),
        forall|x: T|
            #[trigger] picked_once(items, keep, n).contains(x) <==> keep(x) && among(items, n, x),
    decreases n,
{
    if n > 0 {
        lemma_picked_once(items, keep, n - 1);
        let before = picked_once(items, keep, n - 1);
        let now = picked_once(items, keep, n);
        let last = items[n - 1];
        assert forall|x: T| #[trigger] now.contains(x) <==> keep(x) && among(items, n, x) by {
            if now.contains(x) {
                let k = choose|k: int| 0 <= k < now.len() && now[k] == x;
                if k < before.len() {
                    assert(before[k] == x);
                    assert(before.contains(x));
                    assert(among(items, n - 1, x));
                    let i = choose|i: int|
                        0 <= i < n - 1 && i < items.len() && #[trigger] items[i] == x;
                    assert(items[i] == x);
                } else {
                    assert(x == last);
                    assert(items[n - 1] == x);
                }
            }
            if keep(x) && among(items, n, x) {
                let i = choose|i: int| 0 <= i < n && i < items.len() && #[trigger] items[i] == x;
                if i < n - 1 {
                    assert(among(items, n - 1, x));
                    assert(before.contains(x));
                    let k = choose|k: int| 0 <= k < before.len() && before[k] == x;
                    assert(now[k] == x);
                } else if before.contains(x) {
                    let k = choose|k: int| 0 <= k < before.len() && before[k] == x;
                    assert(now[k] == x);
                } else {
                    assert(now[before.len() as int] == x);
                }
            }
        }
    }
}

} // verus!
