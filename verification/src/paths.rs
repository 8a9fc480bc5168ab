//! What holds of paths: the components of a path are names without a
//! `/`, a path as its components give it has those same components, and a
//! file placed in the directory of another file lies in that directory.

use vstd::prelude::*;
use crate::text::parts;
use crate::text::names;
use crate::text::dot;
use crate::text::undotted;
use crate::text::components;
use crate::text::rendered_path;
use crate::text::normal_path;
use crate::text::joined;
use crate::text::is_absolute;
use crate::text::dir_of;
use crate::text::file_name_of;
use crate::text::join_path;
use crate::text::resolved_path;

verus! {

/// Whether the text holds no `/`.
pub open spec fn one_part(name: Seq<char>) -> bool {
    forall|i: int| 0 <= i < name.len() ==> #[trigger] name[i] != '/'
}

/// Whether every text is a name: not empty and without a `/`.
pub open spec fn all_names(cs: Seq<Seq<char>>) -> bool {
    forall|k: int| 0 <= k < cs.len() ==> (#[trigger] cs[k]).len() > 0 && one_part(cs[k])
}

/// Whether the texts are the components of a path: names, of which none
/// is `.` but the first of a relative path.
pub open spec fn proper(cs: Seq<Seq<char>>, absolute: bool) -> bool {
    &&& all_names(cs)
    &&& forall|k: int| 0 <= k < cs.len() && #[trigger] cs[k] == dot() ==> k == 0 && !absolute
}

/// The separator as a text.
pub open spec fn slash() -> Seq<char> {
    seq!['/']
}

/// A text has at least one part, and no part holds a `/`.
pub proof fn lemma_parts(path: Seq<char>)
    ensures
        parts(path).len() >= 1,
        forall|k: int| 0 <= k < parts(path).len() ==> one_part(#[trigger] parts(path)[k]),
    decreases path.len(),
{
    if path.len() > 0 {
        let rest = path.drop_last();
        lemma_parts(rest);
        let before = parts(rest);
        let now = parts(path);
        assert forall|k: int| 0 <= k < now.len() implies one_part(#[trigger] now[k]) by {
            if k < before.len() - 1 {
                assert(now[k] == before[k]);
            } else if path.last() == '/' {
                if k < before.len() {
                    assert(now[k] == before[k]);
                }
            } else {
                let grown = before.last().push(path.last());
                assert(now[k] == grown);
                assert(one_part(before[before.len() - 1]));
                assert forall|i: int| 0 <= i < grown.len() implies #[trigger] grown[i] != '/' by {
                    if i < before.last().len() {
                        assert(grown[i] == before.last()[i]);
                    }
                }
            }
        }
    }
}

/// A text without a `/`, set behind a path, lengthens the last part.
pub proof fn lemma_parts_append(a: Seq<char>, b: Seq<char>)
    requires
        one_part(b),
    ensures
        parts(a + b) == parts(a).update(parts(a).len() - 1, parts(a).last() + b),
    decreases b.len(),
{
    lemma_parts(a);
    let p = parts(a);
    if b.len() == 0 {
        assert(a + b =~= a);
        assert(p.last() + b =~= p.last());
        assert(p.update(p.len() - 1, p.last()) =~= p);
    } else {
        let head = b.drop_last();
        assert forall|i: int| 0 <= i < head.len() implies #[trigger] head[i] != '/' by {
            assert(head[i] == b[i]);
        }
        lemma_parts_append(a, head);
        assert((a + b).drop_last() =~= a + head);
        assert((a + b).last() == b.last());
        assert(b[b.len() - 1] != '/');
        let before = parts(a + head);
        assert(before.last() == p.last() + head);
        assert((p.last() + head).push(b.last()) =~= p.last() + b);
        assert(before.update(before.len() - 1, before.last().push(b.last())) =~= p.update(
            p.len() - 1,
            p.last() + b,
        ));
    }
}

/// A `/` behind a path opens a new, empty part.
pub proof fn lemma_parts_slash(a: Seq<char>)
    ensures
        parts(a.push('/')) == parts(a).push(Seq::<char>::empty()),
{
    assert(a.push('/').drop_last() =~= a);
}

/// Names joined by `/` are a text that is not empty, begins as the first
/// name and ends as the last.
pub proof fn lemma_joined_ends(cs: Seq<Seq<char>>)
    requires
        cs.len() >= 1,
        all_names(cs),
    ensures
        joined(cs, slash()).len() > 0,
        joined(cs, slash())[0] == cs[0][0],
        joined(cs, slash()).last() == cs.last().last(),
    decreases cs.len(),
{
    if cs.len() >= 2 {
        let rest = cs.drop_last();
        assert forall|k: int| 0 <= k < rest.len() implies (#[trigger] rest[k]).len() > 0
            && one_part(rest[k]) by {
            assert(rest[k] == cs[k]);
        }
        lemma_joined_ends(rest);
        let text = joined(cs, slash());
        assert(text == joined(rest, slash()) + slash() + cs.last());
        assert(cs[cs.len() - 1].len() > 0);
        assert(text[0] == joined(rest, slash())[0]);
        assert(rest[0] == cs[0]);
    } else {
        assert(cs[0].len() > 0);
        assert(cs.last() == cs[0]);
    }
}

/// The parts of names joined by `/` are the names.
pub proof fn lemma_parts_of_joined(cs: Seq<Seq<char>>)
    requires
        cs.len() >= 1,
        all_names(cs),
    ensures
        parts(joined(cs, slash())) == cs,
    decreases cs.len(),
{
    let none = Seq::<char>::empty();
    if cs.len() == 1 {
        assert(one_part(cs[0]));
        lemma_parts_append(none, cs[0]);
        assert(none + cs[0] =~= cs[0]);
        assert(parts(none) =~= seq![none]);
        assert(parts(none).update(0, none + cs[0]) =~= cs);
    } else {
        let rest = cs.drop_last();
        assert forall|k: int| 0 <= k < rest.len() implies (#[trigger] rest[k]).len() > 0
            && one_part(rest[k]) by {
            assert(rest[k] == cs[k]);
        }
        lemma_parts_of_joined(rest);
        let head = joined(rest, slash());
        lemma_parts_slash(head);
        assert(one_part(cs[cs.len() - 1]));
        lemma_parts_append(head.push('/'), cs.last());
        assert(joined(cs, slash()) =~= head.push('/') + cs.last());
        assert(none + cs.last() =~= cs.last());
        assert(rest.push(none).update(rest.len() as int, none + cs.last()) =~= cs);
    }
}

/// The parts of names joined by `/` behind the root are an empty part and
/// the names; the parts of the root alone are two empty parts.
pub proof fn lemma_parts_of_rooted(cs: Seq<Seq<char>>)
    requires
        all_names(cs),
    ensures
        parts(slash() + joined(cs, slash())) == if cs.len() == 0 {
            seq![Seq::<char>::empty(), Seq::<char>::empty()]
        } else {
            seq![Seq::<char>::empty()] + cs
        },
    decreases cs.len(),
{
    let none = Seq::<char>::empty();
    lemma_parts_slash(none);
    assert(none.push('/') =~= slash());
    assert(parts(none) =~= seq![none]);
    assert(parts(slash()) =~= seq![none, none]);
    if cs.len() == 0 {
        assert(slash() + joined(cs, slash()) =~= slash());
    } else if cs.len() == 1 {
        assert(one_part(cs[0]));
        lemma_parts_append(slash(), cs[0]);
        assert(slash() + joined(cs, slash()) =~= slash() + cs[0]);
        assert(none + cs[0] =~= cs[0]);
        assert(seq![none, none].update(1, none + cs[0]) =~= seq![none] + cs);
    } else {
        let rest = cs.drop_last();
        assert forall|k: int| 0 <= k < rest.len() implies (#[trigger] rest[k]).len() > 0
            && one_part(rest[k]) by {
            assert(rest[k] == cs[k]);
        }
        lemma_parts_of_rooted(rest);
        let head = slash() + joined(rest, slash());
        lemma_parts_slash(head);
        assert(one_part(cs[cs.len() - 1]));
        lemma_parts_append(head.push('/'), cs.last());
        assert(slash() + joined(cs, slash()) =~= head.push('/') + cs.last());
        assert(none + cs.last() =~= cs.last());
        let before = (seq![none] + rest).push(none);
        assert(before.update(before.len() - 1, none + cs.last()) =~= seq![none] + cs);
    }
}

/// What is left of parts without a `/` are names.
pub proof fn lemma_names(ps: Seq<Seq<char>>)
    requires
        forall|k: int| 0 <= k < ps.len() ==> one_part(#[trigger] ps[k]),
    ensures
        all_names(names(ps)),
    decreases ps.len(),
{
    if ps.len() > 0 {
        let rest = ps.drop_last();
        assert forall|k: int| 0 <= k < rest.len() implies one_part(#[trigger] rest[k]) by {
            assert(rest[k] == ps[k]);
        }
        lemma_names(rest);
        let before = names(rest);
        let now = names(ps);
        assert forall|k: int| 0 <= k < now.len() implies (#[trigger] now[k]).len() > 0
            && one_part(now[k]) by {
            if k < before.len() {
                assert(now[k] == before[k]);
            } else {
                assert(now[k] == ps[ps.len() - 1]);
            }
        }
    }
}

/// Names stay as they are, also behind an empty part.
pub proof fn lemma_names_stay(cs: Seq<Seq<char>>)
    requires
        all_names(cs),
    ensures
        names(cs) == cs,
        names(seq![Seq::<char>::empty()] + cs) == cs,
    decreases cs.len(),
{
    let none = Seq::<char>::empty();
    if cs.len() == 0 {
        assert(seq![none] + cs =~= seq![none]);
        assert(seq![none].drop_last() =~= Seq::<Seq<char>>::empty());
        assert(names(cs) =~= cs);
    } else {
        let rest = cs.drop_last();
        assert forall|k: int| 0 <= k < rest.len() implies (#[trigger] rest[k]).len() > 0
            && one_part(rest[k]) by {
            assert(rest[k] == cs[k]);
        }
        lemma_names_stay(rest);
        assert(cs[cs.len() - 1].len() > 0);
        assert(rest.push(cs.last()) =~= cs);
        let rooted = seq![none] + cs;
        assert(rooted.drop_last() =~= seq![none] + rest);
        assert(rooted.last() == cs.last());
    }
}

/// What is left of names are the components of a path.
pub proof fn lemma_undotted(ns: Seq<Seq<char>>, absolute: bool)
    requires
        all_names(ns),
    ensures
        proper(undotted(ns, absolute), absolute),
    decreases ns.len(),
{
    if ns.len() > 0 {
        let rest = ns.drop_last();
        assert forall|k: int| 0 <= k < rest.len() implies (#[trigger] rest[k]).len() > 0
            && one_part(rest[k]) by {
            assert(rest[k] == ns[k]);
        }
        lemma_undotted(rest, absolute);
        let before = undotted(rest, absolute);
        let now = undotted(ns, absolute);
        assert(ns[ns.len() - 1].len() > 0 && one_part(ns[ns.len() - 1]));
        if !(ns.last() == dot() && (ns.len() > 1 || absolute)) {
            assert(now == before.push(ns.last()));
            assert forall|k: int| 0 <= k < now.len() implies (#[trigger] now[k]).len() > 0
                && one_part(now[k]) by {
                if k < before.len() {
                    assert(now[k] == before[k]);
                }
            }
            assert forall|k: int| 0 <= k < now.len() && #[trigger] now[k] == dot() implies k == 0
                && !absolute by {
                if k < before.len() {
                    assert(now[k] == before[k]);
                } else {
                    assert(rest.len() == 0);
                }
            }
        }
    }
}

/// The components of a path stay as they are.
pub proof fn lemma_undotted_stay(cs: Seq<Seq<char>>, absolute: bool)
    requires
        proper(cs, absolute),
    ensures
        undotted(cs, absolute) == cs,
    decreases cs.len(),
{
    if cs.len() > 0 {
        let rest = cs.drop_last();
        assert forall|k: int| 0 <= k < rest.len() implies (#[trigger] rest[k]).len() > 0
            && one_part(rest[k]) by {
            assert(rest[k] == cs[k]);
        }
        assert forall|k: int| 0 <= k < rest.len() && #[trigger] rest[k] == dot() implies k == 0
            && !absolute by {
            assert(rest[k] == cs[k]);
        }
        lemma_undotted_stay(rest, absolute);
        if cs.last() == dot() {
            assert(cs[cs.len() - 1] == dot());
        }
        assert(rest.push(cs.last()) =~= cs);
    }
}

/// The components of a path are names, of which none is `.` but the
/// first of a relative path.
pub proof fn lemma_components(path: Seq<char>)
    ensures
        proper(components(path), is_absolute(path)),
{
    lemma_parts(path);
    lemma_names(parts(path));
    lemma_undotted(names(parts(path)), is_absolute(path));
}

/// The path that components stand for has those components.
pub proof fn lemma_round_trip(absolute: bool, cs: Seq<Seq<char>>)
    requires
        proper(cs, absolute),
    ensures
        is_absolute(rendered_path(absolute, cs)) == absolute,
        components(rendered_path(absolute, cs)) == cs,
{
    let none = Seq::<char>::empty();
    let text = rendered_path(absolute, cs);
    lemma_names_stay(cs);
    lemma_undotted_stay(cs, absolute);
    if absolute {
        assert(text[0] == '/');
        lemma_parts_of_rooted(cs);
        if cs.len() == 0 {
            let two = seq![none, none];
            assert(two.drop_last() =~= seq![none]);
            assert(seq![none].drop_last() =~= Seq::<Seq<char>>::empty());
            assert(names(two) =~= cs);
        }
    } else if cs.len() == 0 {
        assert(text =~= none);
        assert(parts(text) =~= seq![none]);
        assert(seq![none].drop_last() =~= Seq::<Seq<char>>::empty());
        assert(names(seq![none]) =~= cs);
    } else {
        lemma_joined_ends(cs);
        lemma_parts_of_joined(cs);
        assert(one_part(cs[0]));
        assert(cs[0][0] != '/');
    }
}

/// A path as its components give it has the components of the path, and
/// is itself as its components give it.
pub proof fn lemma_normal_is_normal(path: Seq<char>)
    ensures
        is_absolute(normal_path(path)) == is_absolute(path),
        components(normal_path(path)) == components(path),
        normal_path(normal_path(path)) == normal_path(path),
{
    lemma_components(path);
    lemma_round_trip(is_absolute(path), components(path));
}

/// A resolved path is as its components give it: two resolved paths with
/// the same components are one text.
pub proof fn lemma_resolved_is_normal(root: Seq<char>, path: Seq<char>)
    ensures
        normal_path(resolved_path(root, path)) == resolved_path(root, path),
{
    if is_absolute(path) {
        lemma_normal_is_normal(path);
    } else {
        lemma_normal_is_normal(join_path(root, path));
    }
}

/// A file placed under its name in the directory of another file lies in
/// that directory.
pub proof fn lemma_sibling_lies_beside(beside: Seq<char>, file: Seq<char>)
    requires
        file_name_of(file).len() > 0,
    ensures
        dir_of(join_path(dir_of(beside), file_name_of(file))) == dir_of(beside),
{
    let absolute = is_absolute(beside);
    let all = components(beside);
    let cs = if all.len() > 0 {
        all.drop_last()
    } else {
        all
    };
    let dir = dir_of(beside);
    let name = file_name_of(file);
    let placed = join_path(dir, name);
    lemma_components(beside);
    lemma_components(file);
    assert(name == components(file).last());
    assert(components(file)[components(file).len() - 1] == name);
    assert(name.len() > 0 && one_part(name) && name != dot());
    assert(proper(cs, absolute)) by {
        assert forall|k: int| 0 <= k < cs.len() implies (#[trigger] cs[k]).len() > 0 && one_part(
            cs[k],
        ) by {
            assert(cs[k] == all[k]);
        }
        assert forall|k: int| 0 <= k < cs.len() && #[trigger] cs[k] == dot() implies k == 0
            && !absolute by {
            assert(cs[k] == all[k]);
        }
    }
    assert(dir == rendered_path(absolute, cs));
    if cs.len() > 0 {
        lemma_joined_ends(cs);
        assert(one_part(cs[cs.len() - 1]));
        assert(cs.last()[cs.last().len() - 1] != '/');
        assert(dir.last() == joined(cs, slash()).last());
        let longer = cs.push(name);
        assert(longer.drop_last() =~= cs);
        assert(joined(longer, slash()) == joined(cs, slash()) + slash() + name);
        assert(placed =~= rendered_path(absolute, longer));
        assert(proper(longer, absolute)) by {
            assert forall|k: int| 0 <= k < longer.len() implies (#[trigger] longer[k]).len() > 0
                && one_part(longer[k]) by {
                if k < cs.len() {
                    assert(longer[k] == cs[k]);
                }
            }
            assert forall|k: int| 0 <= k < longer.len() && #[trigger] longer[k]
                == dot() implies k == 0 && !absolute by {
                if k < cs.len() {
                    assert(longer[k] == cs[k]);
                }
            }
        }
        lemma_round_trip(absolute, longer);
    } else {
        let alone = seq![name];
        assert(joined(alone, slash()) == name);
        assert(joined(cs, slash()) =~= Seq::<char>::empty());
        assert(proper(alone, absolute));
        assert(alone.drop_last() =~= cs);
        if absolute {
            assert(dir =~= slash());
            assert(placed =~= rendered_path(true, alone));
        } else {
            assert(dir =~= Seq::<char>::empty());
            assert(placed =~= rendered_path(false, alone));
        }
        lemma_round_trip(absolute, alone);
    }
}

} // verus!
