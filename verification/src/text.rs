//! Text handling shared by the rules: whitespace trimming, ASCII
//! case-insensitive comparison, prefixes, and the slash-separated paths of
//! backing files. Every text is modelled by its sequence of characters.

use vstd::prelude::*;

verus! {

/// Characters with the Unicode property `White_Space`.
pub open spec fn is_whitespace(c: char) -> bool {
    ||| ('\u{0009}' <= c && c <= '\u{000D}')
    ||| c == '\u{0020}'
    ||| c == '\u{0085}'
    ||| c == '\u{00A0}'
    ||| c == '\u{1680}'
    ||| ('\u{2000}' <= c && c <= '\u{200A}')
    ||| c == '\u{2028}'
    ||| c == '\u{2029}'
    ||| c == '\u{202F}'
    ||| c == '\u{205F}'
    ||| c == '\u{3000}'
}

pub fn char_is_whitespace(c: char) -> (r: bool)
    ensures
        r == is_whitespace(c),
{
    ('\u{0009}' <= c && c <= '\u{000D}') || c == '\u{0020}' || c == '\u{0085}' || c == '\u{00A0}'
        || c == '\u{1680}' || ('\u{2000}' <= c && c <= '\u{200A}') || c == '\u{2028}' || c
        == '\u{2029}' || c == '\u{202F}' || c == '\u{205F}' || c == '\u{3000}'
}

/// The ASCII lower-case form of a character; other characters are unchanged.
pub open spec fn ascii_lower(c: char) -> char {
    if 'A' <= c && c <= 'Z' {
        ((c as u8) + 32) as char
    } else {
        c
    }
}

pub fn char_ascii_lower(c: char) -> (r: char)
    ensures
        r == ascii_lower(c),
{
    if 'A' <= c && c <= 'Z' {
        ((c as u8) + 32) as char
    } else {
        c
    }
}

/// Equality of two texts up to the case of ASCII letters.
pub open spec fn eq_ignore_ascii_case(a: Seq<char>, b: Seq<char>) -> bool {
    &&& a.len() == b.len()
    &&& forall|i: int| 0 <= i < a.len() ==> ascii_lower(#[trigger] a[i]) == ascii_lower(b[i])
}

/// Number of whitespace characters at the start of `s`.
pub open spec fn leading_ws(s: Seq<char>) -> nat
    decreases s.len(),
{
    if s.len() > 0 && is_whitespace(s[0]) {
        1 + leading_ws(s.drop_first())
    } else {
        0
    }
}

/// Number of whitespace characters at the end of `s`.
pub open spec fn trailing_ws(s: Seq<char>) -> nat
    decreases s.len(),
{
    if s.len() > 0 && is_whitespace(s.last()) {
        1 + trailing_ws(s.drop_last())
    } else {
        0
    }
}

/// `s` without its leading and trailing whitespace.
pub open spec fn trimmed(s: Seq<char>) -> Seq<char> {
    if leading_ws(s) + trailing_ws(s) >= s.len() {
        Seq::<char>::empty()
    } else {
        s.subrange(leading_ws(s) as int, s.len() - trailing_ws(s))
    }
}

/// The white space in front ends at the first character that is none.
pub proof fn lemma_leading_ws(s: Seq<char>, lo: int)
    requires
        0 <= lo <= s.len(),
        forall|i: int| 0 <= i < lo ==> is_whitespace(#[trigger] s[i]),
        lo < s.len() ==> !is_whitespace(s[lo]),
    ensures
        leading_ws(s) == lo,
    decreases lo,
{
    if lo > 0 {
        let rest = s.drop_first();
        assert(is_whitespace(s[0]));
        assert forall|i: int| 0 <= i < lo - 1 implies is_whitespace(#[trigger] rest[i]) by {
            assert(rest[i] == s[i + 1]);
        }
        if lo - 1 < rest.len() {
            assert(rest[lo - 1] == s[lo]);
        }
        lemma_leading_ws(rest, lo - 1);
    }
}

/// The white space at the end begins behind the last character that is
/// none.
pub proof fn lemma_trailing_ws(s: Seq<char>, hi: int)
    requires
        0 <= hi <= s.len(),
        forall|i: int| hi <= i < s.len() ==> is_whitespace(#[trigger] s[i]),
        hi > 0 ==> !is_whitespace(s[hi - 1]),
    ensures
        trailing_ws(s) == s.len() - hi,
    decreases s.len() - hi,
{
    if hi < s.len() {
        let rest = s.drop_last();
        assert(is_whitespace(s.last()));
        assert forall|i: int| hi <= i < rest.len() implies is_whitespace(#[trigger] rest[i]) by {
            assert(rest[i] == s[i]);
        }
        if hi > 0 {
            assert(rest[hi - 1] == s[hi - 1]);
        }
        lemma_trailing_ws(rest, hi);
    }
}

/// A text that is free of whitespace at both ends is its own trimmed form.
pub proof fn lemma_trimmed_of_tight(s: Seq<char>)
    requires
        s.len() > 0,
        !is_whitespace(s[0]),
        !is_whitespace(s.last()),
    ensures
        trimmed(s) == s,
{
    lemma_leading_ws(s, 0);
    lemma_trailing_ws(s, s.len() as int);
    assert(s.subrange(0, s.len() as int) == s);
}

/// The characters of a text, in order.
pub fn to_chars(s: &str) -> (r: Vec<char>)
    ensures
        r@ == s@,
{
    let mut out: Vec<char> = Vec::new();
    for c in it: s.chars()
        invariant
            out@ == s@.take(it.index() as int),
            it.seq() == s@,
    {
        out.push(c);
    }
    out
}

/// The bounds of the trimmed part of `v`.
pub fn trim_bounds(v: &Vec<char>) -> (r: (usize, usize))
    ensures
        r.0 <= r.1 <= v.len(),
        v@.subrange(r.0 as int, r.1 as int) == trimmed(v@),
        r.0 == r.1 <==> trimmed(v@).len() == 0,
{
    let n = v.len();
    let mut lo: usize = 0;
    while lo < n && char_is_whitespace(v[lo])
        invariant
            lo <= n,
            n == v.len(),
            forall|i: int| 0 <= i < lo ==> is_whitespace(#[trigger] v@[i]),
        decreases n - lo,
    {
        lo = lo + 1;
    }
    let mut hi: usize = n;
    while hi > lo && char_is_whitespace(v[hi - 1])
        invariant
            lo <= hi <= n,
            n == v.len(),
            forall|i: int| hi <= i < n ==> is_whitespace(#[trigger] v@[i]),
        decreases hi,
    {
        hi = hi - 1;
    }
    proof {
        lemma_leading_ws(v@, lo as int);
        if lo == n {
            assert(v@.subrange(lo as int, hi as int) =~= Seq::<char>::empty());
            if n > 0 {
                assert(is_whitespace(v@[n - 1]));
                assert(trailing_ws(v@) >= 1);
            }
        } else {
            lemma_trailing_ws(v@, hi as int);
        }
    }
    (lo, hi)
}

/// Whether `a` equals the part `b[lo..hi]` up to the case of ASCII letters.
pub fn eq_ignore_case_range(a: &Vec<char>, b: &Vec<char>, lo: usize, hi: usize) -> (r: bool)
    requires
        lo <= hi <= b.len(),
    ensures
        r == eq_ignore_ascii_case(a@, b@.subrange(lo as int, hi as int)),
{
    if a.len() != hi - lo {
        return false;
    }
    let ghost part = b@.subrange(lo as int, hi as int);
    let mut i: usize = 0;
    while i < a.len()
        invariant
            i <= a.len(),
            a.len() == hi - lo,
            lo <= hi <= b.len(),
            part == b@.subrange(lo as int, hi as int),
            forall|j: int| 0 <= j < i ==> ascii_lower(#[trigger] a@[j]) == ascii_lower(part[j]),
        decreases a.len() - i,
    {
        if char_ascii_lower(a[i]) != char_ascii_lower(b[lo + i]) {
            assert(part[i as int] == b@[lo + i]);
            return false;
        }
        assert(part[i as int] == b@[lo + i]);
        i = i + 1;
    }
    true
}

/// Whether one of `markers` equals `t` up to the case of ASCII letters.
pub open spec fn matches_marker(markers: Seq<Seq<char>>, t: Seq<char>) -> bool {
    exists|i: int| 0 <= i < markers.len() && eq_ignore_ascii_case(#[trigger] markers[i], t)
}

/// A text counts as no description when nothing is left after trimming, or
/// when what is left is one of the invalid markers, whatever its case.
pub open spec fn is_blank_or_marker(text: Seq<char>, markers: Seq<Seq<char>>) -> bool {
    trimmed(text).len() == 0 || matches_marker(markers, trimmed(text))
}

/// Whether a description is absent, blank, or an invalid marker.
pub open spec fn description_missing(
    description: Option<Seq<char>>,
    markers: Seq<Seq<char>>,
) -> bool {
    match description {
        None => true,
        Some(text) => is_blank_or_marker(text, markers),
    }
}

pub fn text_is_blank_or_marker(text: &str, markers: &Vec<String>) -> (r: bool)
    ensures
        r == is_blank_or_marker(text@, markers.deep_view()),
{
    let chars = to_chars(text);
    let (lo, hi) = trim_bounds(&chars);
    if lo == hi {
        return true;
    }
    let ghost t = trimmed(text@);
    let ghost all = markers.deep_view();
    let mut k: usize = 0;
    while k < markers.len()
        invariant
            k <= markers.len(),
            lo <= hi <= chars.len(),
            chars@.subrange(lo as int, hi as int) == t,
            t == trimmed(text@),
            t.len() > 0,
            all == markers.deep_view(),
            forall|j: int| 0 <= j < k ==> !eq_ignore_ascii_case(#[trigger] all[j], t),
        decreases markers.len() - k,
    {
        assert(all[k as int] == markers@[k as int]@);
        let marker = to_chars(markers[k].as_str());
        if eq_ignore_case_range(&marker, &chars, lo, hi) {
            assert(eq_ignore_ascii_case(all[k as int], t));
            return true;
        }
        k = k + 1;
    }
    false
}

pub fn is_description_missing(description: &Option<String>, markers: &Vec<String>) -> (r: bool)
    ensures
        r == description_missing(description.deep_view(), markers.deep_view()),
{
    match description {
        None => true,
        Some(text) => text_is_blank_or_marker(text.as_str(), markers),
    }
}

/// Whether `s` begins with `prefix`.
pub fn starts_with(s: &str, prefix: &str) -> (r: bool)
    ensures
        r == prefix@.is_prefix_of(s@),
{
    let text = to_chars(s);
    let head = to_chars(prefix);
    if head.len() > text.len() {
        return false;
    }
    let mut i: usize = 0;
    while i < head.len()
        invariant
            i <= head.len() <= text.len(),
            text@ == s@,
            head@ == prefix@,
            forall|j: int| 0 <= j < i ==> head@[j] == text@[j],
        decreases head.len() - i,
    {
        if head[i] != text[i] {
            assert(text@.subrange(0, head@.len() as int)[i as int] == text@[i as int]);
            return false;
        }
        i = i + 1;
    }
    assert(head@ =~= text@.subrange(0, head@.len() as int));
    true
}

/// The part of `s` behind its last `sep`; all of `s` when it holds no `sep`.
pub open spec fn after_last(s: Seq<char>, sep: char) -> Seq<char>
    decreases s.len(),
{
    if s.len() == 0 {
        s
    } else if s.last() == sep {
        Seq::<char>::empty()
    } else {
        after_last(s.drop_last(), sep).push(s.last())
    }
}

/// The part of `s` in front of its last `sep`; empty when it holds no `sep`.
pub open spec fn before_last(s: Seq<char>, sep: char) -> Seq<char>
    decreases s.len(),
{
    if s.len() == 0 {
        s
    } else if s.last() == sep {
        s.drop_last()
    } else {
        before_last(s.drop_last(), sep)
    }
}

/// Position just behind the last `sep` of `s`, or 0 when there is none.
pub open spec fn split_point(s: Seq<char>, sep: char) -> int
    decreases s.len(),
{
    if s.len() == 0 {
        0
    } else if s.last() == sep {
        s.len() as int
    } else {
        split_point(s.drop_last(), sep)
    }
}

/// The split point parts a text into what stands in front of its last
/// separator and what stands behind it.
pub proof fn lemma_split_point(s: Seq<char>, sep: char)
    ensures
        0 <= split_point(s, sep) <= s.len(),
        after_last(s, sep) == s.subrange(split_point(s, sep), s.len() as int),
        split_point(s, sep) > 0 ==> before_last(s, sep) == s.subrange(
            0,
            split_point(s, sep) - 1,
        ),
        split_point(s, sep) == 0 ==> before_last(s, sep) == Seq::<char>::empty(),
        split_point(s, sep) > 0 ==> s[split_point(s, sep) - 1] == sep,
        forall|i: int| split_point(s, sep) <= i < s.len() ==> s[i] != sep,
    decreases s.len(),
{
    if s.len() == 0 {
        assert(s.subrange(0, 0) =~= s);
    } else if s.last() == sep {
        assert(s.subrange(s.len() as int, s.len() as int) =~= Seq::<char>::empty());
        assert(s.subrange(0, s.len() - 1) =~= s.drop_last());
    } else {
        let rest = s.drop_last();
        lemma_split_point(rest, sep);
        let p = split_point(rest, sep);
        assert(s.subrange(p, s.len() as int) =~= rest.subrange(p, rest.len() as int).push(
            s.last(),
        ));
        if p > 0 {
            assert(s.subrange(0, p - 1) =~= rest.subrange(0, p - 1));
        }
        assert forall|i: int| p <= i < s.len() implies s[i] != sep by {
            if i < rest.len() {
                assert(rest[i] == s[i]);
            }
        }
    }
}

/// A position with a `sep` just in front of it and none behind it is the split point.
pub proof fn lemma_split_point_is(s: Seq<char>, sep: char, p: int)
    requires
        0 <= p <= s.len(),
        p > 0 ==> s[p - 1] == sep,
        forall|i: int| p <= i < s.len() ==> s[i] != sep,
    ensures
        split_point(s, sep) == p,
    decreases s.len(),
{
    if s.len() == 0 {
    } else if s.last() == sep {
        if p < s.len() {
            assert(s[s.len() - 1] != sep);
        }
    } else {
        let rest = s.drop_last();
        if p == s.len() {
            assert(s[p - 1] == sep);
        }
        assert forall|i: int| p <= i < rest.len() implies rest[i] != sep by {
            assert(rest[i] == s[i]);
        }
        if p > 0 {
            assert(rest[p - 1] == s[p - 1]);
        }
        lemma_split_point_is(rest, sep, p);
    }
}

/// Index just behind the last `sep` of `v`, or 0.
pub fn find_split(v: &Vec<char>, sep: char) -> (p: usize)
    ensures
        p == split_point(v@, sep),
        p <= v.len(),
{
    let mut p: usize = v.len();
    while p > 0 && v[p - 1] != sep
        invariant
            p <= v.len(),
            forall|i: int| p <= i < v.len() ==> v@[i] != sep,
        decreases p,
    {
        p = p - 1;
    }
    proof {
        lemma_split_point_is(v@, sep, p as int);
    }
    p
}

/// The last segment of a dotted identifier: the text behind its last `sep`.
pub fn last_segment(s: &str, sep: char) -> (r: String)
    ensures
        r@ == after_last(s@, sep),
{
    let chars = to_chars(s);
    let p = find_split(&chars, sep);
    proof {
        lemma_split_point(s@, sep);
    }
    s.substring_char(p, chars.len()).to_owned()
}

/// The parts of a text that its separators `/` set apart; a text
/// without a `/` is one part.
pub open spec fn parts(path: Seq<char>) -> Seq<Seq<char>>
    decreases path.len(),
{
    if path.len() == 0 {
        seq![Seq::<char>::empty()]
    } else if path.last() == '/' {
        parts(path.drop_last()).push(Seq::<char>::empty())
    } else {
        parts(path.drop_last()).update(
            parts(path.drop_last()).len() - 1,
            parts(path.drop_last()).last().push(path.last()),
        )
    }
}

/// The parts that are not empty, in order.
pub open spec fn names(ps: Seq<Seq<char>>) -> Seq<Seq<char>>
    decreases ps.len(),
{
    if ps.len() == 0 {
        Seq::empty()
    } else if ps.last().len() == 0 {
        names(ps.drop_last())
    } else {
        names(ps.drop_last()).push(ps.last())
    }
}

/// The name `.`, which stands for the directory it is found in.
pub open spec fn dot() -> Seq<char> {
    seq!['.']
}

/// The name `..`, which stands for the directory above.
pub open spec fn dots() -> Seq<char> {
    seq!['.', '.']
}

/// The names without every `.` that is not the first name of a relative
/// path.
pub open spec fn undotted(ns: Seq<Seq<char>>, absolute: bool) -> Seq<Seq<char>>
    decreases ns.len(),
{
    if ns.len() == 0 {
        Seq::empty()
    } else if ns.last() == dot() && (ns.len() > 1 || absolute) {
        undotted(ns.drop_last(), absolute)
    } else {
        undotted(ns.drop_last(), absolute).push(ns.last())
    }
}

/// The components of a path: its names between the separators. A run of
/// `/` counts as one separator, a `/` at the end counts for nothing, and
/// so does a `.` unless it is the first name of a relative path. The name
/// `..` is a name like any other: a path is taken as it is written, not
/// as a file system would resolve it.
pub open spec fn components(path: Seq<char>) -> Seq<Seq<char>> {
    undotted(names(parts(path)), is_absolute(path))
}

/// The path that components stand for, absolute or relative.
pub open spec fn rendered_path(absolute: bool, cs: Seq<Seq<char>>) -> Seq<char> {
    if absolute {
        seq!['/'] + joined(cs, seq!['/'])
    } else {
        joined(cs, seq!['/'])
    }
}

/// A path as its components give it. Two paths with the same components
/// have the same normal path.
pub open spec fn normal_path(path: Seq<char>) -> Seq<char> {
    rendered_path(is_absolute(path), components(path))
}

fn split_parts(path: &str) -> (r: Vec<String>)
    ensures
        r.deep_view() == parts(path@),
{
    let chars = to_chars(path);
    let mut out: Vec<String> = Vec::new();
    let mut current = String::new();
    let mut i: usize = 0;
    assert(chars@.take(0) =~= Seq::<char>::empty());
    assert(out.deep_view().push(current@) =~= parts(chars@.take(0)));
    while i < chars.len()
        invariant
            i <= chars.len(),
            chars@ == path@,
            out.deep_view().push(current@) == parts(chars@.take(i as int)),
        decreases chars.len() - i,
    {
        let ghost before = parts(chars@.take(i as int));
        let ghost next = chars@.take(i + 1);
        let ghost done = out.deep_view();
        let ghost open_part = current@;
        assert(next.drop_last() =~= chars@.take(i as int));
        assert(next.last() == chars@[i as int]);
        assert(before.last() == open_part);
        if chars[i] == '/' {
            out.push(current);
            current = String::new();
            assert(out.deep_view() =~= done.push(open_part));
            assert(out.deep_view().push(current@) =~= before.push(Seq::<char>::empty()));
        } else {
            assert(path@.subrange(i as int, i + 1) =~= seq![chars@[i as int]]);
            current.append(path.substring_char(i, i + 1));
            assert(current@ =~= open_part.push(chars@[i as int]));
            assert(out.deep_view().push(current@) =~= before.update(
                before.len() - 1,
                before.last().push(chars@[i as int]),
            ));
        }
        i = i + 1;
    }
    assert(chars@.take(chars.len() as int) =~= chars@);
    let ghost done = out.deep_view();
    out.push(current);
    assert(out.deep_view() =~= done.push(current@));
    out
}

/// The components of the path.
pub fn path_components(path: &str) -> (r: Vec<String>)
    ensures
        r.deep_view() == components(path@),
{
    let all = split_parts(path);
    let absolute = path_is_absolute(path);
    let ghost ps = all.deep_view();
    let mut named: Vec<String> = Vec::new();
    let mut i: usize = 0;
    assert(ps.take(0) =~= Seq::<Seq<char>>::empty());
    while i < all.len()
        invariant
            i <= all.len(),
            ps == all.deep_view(),
            named.deep_view() == names(ps.take(i as int)),
        decreases all.len() - i,
    {
        assert(ps.take(i + 1).drop_last() =~= ps.take(i as int));
        assert(ps.take(i + 1).last() == all@[i as int]@);
        let part = to_chars(all[i].as_str());
        if part.len() > 0 {
            let ghost before = named.deep_view();
            named.push(all[i].clone());
            assert(named.deep_view() =~= before.push(all@[i as int]@));
        }
        i = i + 1;
    }
    assert(ps.take(all.len() as int) =~= ps);
    let ghost ns = named.deep_view();
    let dot_name = ".".to_owned();
    proof {
        reveal_strlit(".");
        assert(dot_name@ =~= dot());
    }
    let mut out: Vec<String> = Vec::new();
    let mut k: usize = 0;
    assert(ns.take(0) =~= Seq::<Seq<char>>::empty());
    while k < named.len()
        invariant
            k <= named.len(),
            ns == named.deep_view(),
            dot_name@ == dot(),
            out.deep_view() == undotted(ns.take(k as int), absolute),
        decreases named.len() - k,
    {
        assert(ns.take(k + 1).drop_last() =~= ns.take(k as int));
        assert(ns.take(k + 1).last() == named@[k as int]@);
        if named[k] == dot_name && (k >= 1 || absolute) {
        } else {
            let ghost before = out.deep_view();
            out.push(named[k].clone());
            assert(out.deep_view() =~= before.push(named@[k as int]@));
        }
        k = k + 1;
    }
    assert(ns.take(named.len() as int) =~= ns);
    out
}

/// The path that the components stand for.
pub fn render_path(absolute: bool, cs: &Vec<String>) -> (r: String)
    ensures
        r@ == rendered_path(absolute, cs.deep_view()),
{
    proof {
        reveal_strlit("/");
        assert("/"@ =~= seq!['/']);
        assert(texts_of(cs@) =~= cs.deep_view());
    }
    let tail = join(cs, "/");
    if absolute {
        "/".to_owned().concat(tail.as_str())
    } else {
        tail
    }
}

/// The path as its components give it.
pub fn normalize_path(path: &str) -> (r: String)
    ensures
        r@ == normal_path(path@),
{
    let cs = path_components(path);
    render_path(path_is_absolute(path), &cs)
}

/// The directory of a path: the path of its components but the last. A
/// file directly under the root has the root as its directory; a path of
/// one name has the empty directory.
pub open spec fn dir_of(path: Seq<char>) -> Seq<char> {
    if components(path).len() > 0 {
        rendered_path(is_absolute(path), components(path).drop_last())
    } else {
        rendered_path(is_absolute(path), components(path))
    }
}

/// The file name of a path: its last component. A path that ends in `.`
/// or `..`, or has no component, has no file name.
pub open spec fn file_name_of(path: Seq<char>) -> Seq<char> {
    if components(path).len() > 0 && components(path).last() != dot() && components(
        path,
    ).last() != dots() {
        components(path).last()
    } else {
        Seq::<char>::empty()
    }
}

pub fn path_dir(path: &str) -> (r: String)
    ensures
        r@ == dir_of(path@),
{
    let mut cs = path_components(path);
    let ghost all = cs.deep_view();
    if cs.len() > 0 {
        cs.pop();
        assert(cs.deep_view() =~= all.drop_last());
    }
    render_path(path_is_absolute(path), &cs)
}

pub fn path_file_name(path: &str) -> (r: String)
    ensures
        r@ == file_name_of(path@),
{
    let cs = path_components(path);
    let dot_name = ".".to_owned();
    let dots_name = "..".to_owned();
    proof {
        reveal_strlit(".");
        reveal_strlit("..");
        assert(dot_name@ =~= dot());
        assert(dots_name@ =~= dots());
    }
    if cs.len() > 0 {
        let last = &cs[cs.len() - 1];
        assert(cs.deep_view().last() == last@);
        if *last == dot_name || *last == dots_name {
            String::new()
        } else {
            last.clone()
        }
    } else {
        String::new()
    }
}

/// Whether two paths lie in the same directory.
pub fn same_dir(a: &str, b: &str) -> (r: bool)
    ensures
        r == (dir_of(a@) == dir_of(b@)),
{
    let da = path_dir(a);
    let db = path_dir(b);
    da == db
}

/// A path is absolute when it begins with `/`.
pub open spec fn is_absolute(path: Seq<char>) -> bool {
    path.len() > 0 && path[0] == '/'
}

pub fn path_is_absolute(path: &str) -> (r: bool)
    ensures
        r == is_absolute(path@),
{
    let chars = to_chars(path);
    chars.len() > 0 && chars[0] == '/'
}

/// `name` placed in directory `dir`. An empty directory gives `name` itself,
/// a directory that ends in `/` takes no second one.
pub open spec fn join_path(dir: Seq<char>, name: Seq<char>) -> Seq<char> {
    if dir.len() == 0 {
        name
    } else if dir.last() == '/' {
        dir + name
    } else {
        dir + seq!['/'] + name
    }
}

pub fn path_join(dir: &str, name: &str) -> (r: String)
    ensures
        r@ == join_path(dir@, name@),
{
    let chars = to_chars(dir);
    let n = chars.len();
    if n == 0 {
        name.to_owned()
    } else if chars[n - 1] == '/' {
        dir.to_owned().concat(name)
    } else {
        proof {
            reveal_strlit("/");
            assert("/"@ =~= seq!['/']);
        }
        dir.to_owned().concat("/").concat(name)
    }
}

/// Where `path` lies when read from `root`: itself when absolute, else
/// below `root`; in both cases as its components give it, so that two
/// spellings of one file resolve to one path.
pub open spec fn resolved_path(root: Seq<char>, path: Seq<char>) -> Seq<char> {
    if is_absolute(path) {
        normal_path(path)
    } else {
        normal_path(join_path(root, path))
    }
}

pub fn resolve_patch_path(project_root: &str, patch_path: &str) -> (r: String)
    ensures
        r@ == resolved_path(project_root@, patch_path@),
{
    if path_is_absolute(patch_path) {
        normalize_path(patch_path)
    } else {
        let below = path_join(project_root, patch_path);
        normalize_path(below.as_str())
    }
}

/// The texts of a list of strings.
pub open spec fn texts_of(items: Seq<String>) -> Seq<Seq<char>> {
    Seq::new(items.len(), |i: int| items[i]@)
}

/// The texts `items` with `sep` between neighbours.
pub open spec fn joined(items: Seq<Seq<char>>, sep: Seq<char>) -> Seq<char>
    decreases items.len(),
{
    if items.len() == 0 {
        Seq::<char>::empty()
    } else if items.len() == 1 {
        items[0]
    } else {
        joined(items.drop_last(), sep) + sep + items.last()
    }
}

pub fn join(items: &Vec<String>, sep: &str) -> (r: String)
    ensures
        r@ == joined(texts_of(items@), sep@),
{
    let mut out = String::new();
    let mut i: usize = 0;
    while i < items.len()
        invariant
            i <= items.len(),
            out@ == joined(texts_of(items@).take(i as int), sep@),
        decreases items.len() - i,
    {
        let ghost before = texts_of(items@).take(i as int);
        let ghost after = texts_of(items@).take(i + 1);
        assert(after.drop_last() =~= before);
        assert(after.last() == items@[i as int]@);
        if i > 0 {
            out.append(sep);
        } else {
            assert(out@ + items@[0]@ =~= items@[0]@);
        }
        out.append(items[i].as_str());
        i = i + 1;
    }
    assert(texts_of(items@).take(items.len() as int) =~= texts_of(items@));
    out
}

/// Whether `items` holds a text equal to `key`.
pub open spec fn holds_text(items: Seq<String>, key: Seq<char>) -> bool {
    exists|i: int| 0 <= i < items.len() && (#[trigger] items[i])@ == key
}

pub fn contains_text(items: &Vec<String>, key: &String) -> (r: bool)
    ensures
        r == holds_text(items@, key@),
{
    let mut i: usize = 0;
    while i < items.len()
        invariant
            i <= items.len(),
            forall|j: int| 0 <= j < i ==> (#[trigger] items@[j])@ != key@,
        decreases items.len() - i,
    {
        if items[i] == *key {
            return true;
        }
        i = i + 1;
    }
    false
}

/// A copy of `items`, text for text.
pub fn clone_texts(items: &Vec<String>) -> (r: Vec<String>)
    ensures
        r@ == items@,
{
    let mut out: Vec<String> = Vec::new();
    let mut i: usize = 0;
    while i < items.len()
        invariant
            i <= items.len(),
            out@ == items@.take(i as int),
        decreases items.len() - i,
    {
        out.push(items[i].clone());
        assert(items@.take(i + 1) =~= items@.take(i as int).push(items@[i as int]));
        i = i + 1;
    }
    assert(items@.take(items.len() as int) =~= items@);
    out
}

pub fn clone_opt_text(text: &Option<String>) -> (r: Option<String>)
    ensures
        r == *text,
{
    match text {
        None => None,
        Some(t) => Some(t.clone()),
    }
}

/// The first position of `keys` that holds `key`; the length of `keys`
/// when none does.
pub open spec fn position<T>(keys: Seq<T>, key: T) -> int
    decreases keys.len(),
{
    if keys.len() == 0 {
        0
    } else if keys[0] == key {
        0
    } else {
        1 + position(keys.drop_first(), key)
    }
}

/// The position of a key is the first place that holds it, and the
/// length where none does.
pub proof fn lemma_position<T>(keys: Seq<T>, key: T)
    ensures
        0 <= position(keys, key) <= keys.len(),
        position(keys, key) < keys.len() ==> keys[position(keys, key)] == key,
        forall|j: int| 0 <= j < position(keys, key) ==> keys[j] != key,
        position(keys, key) == keys.len() <==> !keys.contains(key),
    decreases keys.len(),
{
    if keys.len() > 0 && keys[0] != key {
        let rest = keys.drop_first();
        lemma_position(rest, key);
        assert forall|j: int| 0 <= j < position(keys, key) implies keys[j] != key by {
            if j > 0 {
                assert(rest[j - 1] == keys[j]);
            }
        }
        if position(keys, key) < keys.len() {
            assert(rest[position(rest, key)] == keys[position(keys, key)]);
        }
        if keys.contains(key) {
            let k = choose|k: int| 0 <= k < keys.len() && keys[k] == key;
            assert(rest[k - 1] == key);
        }
        if rest.contains(key) {
            let k = choose|k: int| 0 <= k < rest.len() && rest[k] == key;
            assert(keys[k + 1] == key);
        }
    }
}

/// A position that holds `key`, with none in front of it that does, is the
/// first; so is the length when no position holds it.
pub proof fn lemma_position_is<T>(keys: Seq<T>, key: T, i: int)
    requires
        0 <= i <= keys.len(),
        forall|j: int| 0 <= j < i ==> keys[j] != key,
        i < keys.len() ==> keys[i] == key,
    ensures
        position(keys, key) == i,
{
    lemma_position(keys, key);
    let p = position(keys, key);
    if p < i {
        assert(keys[p] == key);
    } else if p > i {
        assert(keys[i] != key);
    }
}

/// The first entry of `s` that holds a value.
pub open spec fn first_some<T>(s: Seq<Option<T>>) -> Option<T>
    decreases s.len(),
{
    if s.len() == 0 {
        None
    } else if s[0] is Some {
        s[0]
    } else {
        first_some(s.drop_first())
    }
}

/// An entry with none in front of it that holds a value is the first that
/// does; when no entry holds a value there is no first.
pub proof fn lemma_first_some_is<T>(s: Seq<Option<T>>, i: int)
    requires
        0 <= i <= s.len(),
        forall|j: int| 0 <= j < i ==> (#[trigger] s[j]) is None,
        i < s.len() ==> s[i] is Some,
    ensures
        first_some(s) == if i < s.len() {
            s[i]
        } else {
            None
        },
    decreases i,
{
    if i > 0 {
        let rest = s.drop_first();
        assert(s[0] is None);
        assert forall|j: int| 0 <= j < i - 1 implies (#[trigger] rest[j]) is None by {
            assert(rest[j] == s[j + 1]);
        }
        if i < s.len() {
            assert(rest[i - 1] == s[i]);
        }
        lemma_first_some_is(rest, i - 1);
    }
}

/// Where no first entry with a value is found, no entry holds one.
pub proof fn lemma_first_some_none<T>(s: Seq<Option<T>>)
    requires
        first_some(s) is None,
    ensures
        forall|j: int| 0 <= j < s.len() ==> (#[trigger] s[j]) is None,
    decreases s.len(),
{
    if s.len() > 0 {
        let rest = s.drop_first();
        lemma_first_some_none(rest);
        assert forall|j: int| 0 <= j < s.len() implies (#[trigger] s[j]) is None by {
            if j > 0 {
                assert(rest[j - 1] == s[j]);
            }
        }
    }
}

} // verus!
