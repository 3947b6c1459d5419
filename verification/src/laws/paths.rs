//! Where paths lead.
use vstd::prelude::*;
use crate::laws::text::law_joining;
use crate::text;
use crate::util::{
    below, collapsed, components, file_name_of, is_absolute, is_name, lemma_collapsed_fixed,
    component_spans, lemma_component_spans, lemma_names_of_text, lemma_segment_spans, lies_within,
    name_parts, names, normalized, parent_of, path_text, resolved, segment_spans, segments,
    shown_path, tail_text,
};

verus! {

/// Whether each is a name that leads down one step.
pub open spec fn lead_down(ns: Seq<Seq<char>>) -> bool {
    forall|i: int|
        0 <= i < ns.len() ==> {
            &&& (#[trigger] ns[i]).len() > 0
            &&& ns[i] != seq!['.']
            &&& ns[i] != seq!['.', '.']
            &&& !ns[i].contains('/')
        }
}

/// The path that leads down from the root by names.
pub open spec fn from_root(ns: Seq<Seq<char>>) -> Seq<char> {
    seq!['/'] + text::joined(ns, seq!['/'])
}

proof fn lemma_from_root(ns: Seq<Seq<char>>)
    requires
        lead_down(ns),
    ensures
        names(from_root(ns)) == ns,
        is_absolute(from_root(ns)),
        from_root(ns) == path_text(true, ns),
        collapsed(true, ns) == ns,
        ns.len() > 0 ==> names(text::joined(ns, seq!['/'])) == ns && !is_absolute(
            text::joined(ns, seq!['/']),
        ),
{
    reveal_strlit("/");
    assert("/"@ =~= seq!['/']);
    assert forall|i: int| 0 <= i < ns.len() implies is_name(#[trigger] ns[i]) && !ns[i].contains(
        '/',
    ) by {
        assert(ns[i].len() > 0);
    }
    lemma_names_of_text(true, ns);
    lemma_names_of_text(false, ns);
    assert forall|i: int| 0 <= i < ns.len() implies ns[i] != seq!['.', '.'] by {
        assert(ns[i].len() > 0);
    }
    lemma_collapsed_fixed(ns);
}

proof fn lemma_names_concat(a: Seq<Seq<char>>, b: Seq<Seq<char>>)
    ensures
        (a + b).filter(|p: Seq<char>| is_name(p)) == a.filter(|p: Seq<char>| is_name(p)) + b.filter(
            |p: Seq<char>| is_name(p),
        ),
    decreases b.len(),
{
    reveal(Seq::filter);
    let keep = |p: Seq<char>| is_name(p);
    if b.len() == 0 {
        assert(a + b =~= a);
        assert(a.filter(keep) + b.filter(keep) =~= a.filter(keep));
    } else {
        lemma_names_concat(a, b.drop_last());
        assert((a + b).drop_last() =~= a + b.drop_last());
        assert((a + b).filter(keep) =~= a.filter(keep) + b.filter(keep));
    }
}

/// The names along two paths with a slash between them are those of the one and
/// then those of the other. Empty segments and single dots name nothing.
pub proof fn law_slashes_part_names(a: Seq<char>, b: Seq<char>)
    ensures
        names(a.push('/') + b) == names(a) + names(b),
        names(Seq::empty()) == Seq::<Seq<char>>::empty(),
        names(seq!['.']) == Seq::<Seq<char>>::empty(),
        a.len() > 0 && !a.contains('/') && a != seq!['.'] ==> names(a) == seq![a],
{
    reveal(Seq::filter);
    let keep = |p: Seq<char>| is_name(p);
    text::lemma_pieces_concat(a, b, '/');
    lemma_names_concat(segments(a), segments(b));
    let none: Seq<char> = Seq::empty();
    text::lemma_pieces_single(none, '/');
    text::lemma_pieces_single(seq!['.'], '/');
    assert(seq![none].drop_last().filter(keep) =~= Seq::<Seq<char>>::empty());
    assert(seq![none].filter(keep) =~= Seq::<Seq<char>>::empty());
    let dot: Seq<char> = seq!['.'];
    assert(seq![dot].drop_last().filter(keep) =~= Seq::<Seq<char>>::empty());
    assert(seq![dot].filter(keep) =~= Seq::<Seq<char>>::empty());
    if a.len() > 0 && !a.contains('/') && a != seq!['.'] {
        text::lemma_pieces_single(a, '/');
        assert(seq![a].drop_last().filter(keep) =~= Seq::<Seq<char>>::empty());
        assert(seq![a].filter(keep) =~= seq![a]);
    }
}

/// A name followed by two dots leads nowhere; at the root two dots stay there;
/// and a relative path keeps those that it begins with.
pub proof fn law_two_dots_go_up(absolute: bool, ns: Seq<Seq<char>>, name: Seq<char>)
    requires
        name != seq!['.', '.'],
    ensures
        collapsed(absolute, ns.push(name).push(seq!['.', '.'])) == collapsed(absolute, ns),
        collapsed(absolute, ns.push(name)) == collapsed(absolute, ns).push(name),
        collapsed(true, seq![seq!['.', '.']]) == Seq::<Seq<char>>::empty(),
        collapsed(false, seq![seq!['.', '.']]) == seq![seq!['.', '.']],
        collapsed(absolute, Seq::empty()) == Seq::<Seq<char>>::empty(),
{
    let up: Seq<char> = seq!['.', '.'];
    let one = ns.push(name);
    let two = one.push(up);
    assert(two.drop_last() =~= one);
    assert(one.drop_last() =~= ns);
    let rest = collapsed(absolute, ns);
    assert(collapsed(absolute, one) == rest.push(name));
    assert(two.last() == up);
    assert(rest.push(name).drop_last() =~= rest);
    assert(seq![up].drop_last() =~= Seq::<Seq<char>>::empty());
    assert(collapsed(true, seq![up].drop_last()) =~= Seq::<Seq<char>>::empty());
    assert(collapsed(false, seq![up].drop_last()) =~= Seq::<Seq<char>>::empty());
    assert(collapsed(false, seq![up]) =~= seq![up]);
}

/// A relative path leads down from the workspace, an absolute one from the root,
/// and a plain path is what it is.
pub proof fn law_paths_are_resolved(workspace: Seq<Seq<char>>, ns: Seq<Seq<char>>)
    requires
        lead_down(workspace),
        lead_down(ns),
    ensures
        normalized(from_root(ns)) == from_root(ns),
        resolved(from_root(workspace), from_root(ns)) == from_root(ns),
        ns.len() > 0 ==> resolved(from_root(workspace), text::joined(ns, seq!['/'])) == from_root(
            workspace + ns,
        ),
        resolved(from_root(workspace), seq!['.']) == from_root(workspace),
{
    lemma_from_root(ns);
    lemma_from_root(workspace);
    let both = workspace + ns;
    assert forall|i: int| 0 <= i < both.len() implies {
        &&& (#[trigger] both[i]).len() > 0
        &&& both[i] != seq!['.']
        &&& both[i] != seq!['.', '.']
        &&& !both[i].contains('/')
    } by {
        if i < workspace.len() {
            assert(both[i] == workspace[i]);
        } else {
            assert(both[i] == ns[i - workspace.len()]);
        }
    }
    lemma_from_root(both);
    law_slashes_part_names(Seq::empty(), Seq::empty());
    assert(workspace + Seq::<Seq<char>>::empty() =~= workspace);
}

/// Going up leads out of a directory, and what it leads to is resolved.
pub proof fn law_going_up_is_resolved(
    workspace: Seq<Seq<char>>,
    last: Seq<char>,
    ns: Seq<Seq<char>>,
)
    requires
        lead_down(workspace.push(last)),
        lead_down(ns),
        ns.len() > 0,
    ensures
        resolved(
            from_root(workspace.push(last)),
            seq!['.', '.', '/'] + text::joined(ns, seq!['/']),
        ) == from_root(workspace + ns),
{
    let w = workspace.push(last);
    let rel = text::joined(ns, seq!['/']);
    let up: Seq<char> = seq!['.', '.'];
    let path = seq!['.', '.', '/'] + rel;
    lemma_from_root(w);
    lemma_from_root(ns);
    assert(path =~= up.push('/') + rel);
    law_slashes_part_names(up, rel);
    assert(!up.contains('/'));
    assert(names(path) == seq![up] + ns);
    assert(w[workspace.len() as int] == last);
    law_two_dots_go_up(true, workspace, last);
    lemma_collapsed_appends(w.push(up), ns);
    assert(w + (seq![up] + ns) =~= w.push(up) + ns);
    assert forall|i: int| 0 <= i < workspace.len() implies {
        &&& (#[trigger] workspace[i]).len() > 0
        &&& workspace[i] != seq!['.']
        &&& workspace[i] != seq!['.', '.']
        &&& !workspace[i].contains('/')
    } by {
        assert(w[i] == workspace[i]);
    }
    lemma_from_root(workspace);
    reveal_strlit("/");
    assert("/"@ =~= seq!['/']);
}

proof fn lemma_collapsed_appends(before: Seq<Seq<char>>, ns: Seq<Seq<char>>)
    requires
        lead_down(ns),
    ensures
        collapsed(true, before + ns) == collapsed(true, before) + ns,
    decreases ns.len(),
{
    if ns.len() == 0 {
        assert(before + ns =~= before);
        assert(collapsed(true, before) + ns =~= collapsed(true, before));
    } else {
        let front = ns.drop_last();
        assert forall|i: int| 0 <= i < front.len() implies {
            &&& (#[trigger] front[i]).len() > 0
            &&& front[i] != seq!['.']
            &&& front[i] != seq!['.', '.']
            &&& !front[i].contains('/')
        } by {
            assert(front[i] == ns[i]);
        }
        lemma_collapsed_appends(before, front);
        assert((before + ns).drop_last() =~= before + front);
        assert(ns[ns.len() - 1].len() > 0);
        assert(collapsed(true, before + ns) =~= collapsed(true, before) + ns);
    }
}

/// A path lies within a directory where the names of the directory come first.
/// A directory whose name merely begins alike is another.
pub proof fn law_containment_goes_by_names(root: Seq<Seq<char>>, ns: Seq<Seq<char>>)
    requires
        lead_down(root),
        lead_down(ns),
    ensures
        lies_within(from_root(root), from_root(ns)) == (root.len() <= ns.len() && ns.take(
            root.len() as int,
        ) == root),
{
    lemma_from_root(root);
    lemma_from_root(ns);
    let a = components(from_root(root));
    let b = components(from_root(ns));
    assert(a =~= seq![seq!['/']] + root);
    assert(b =~= seq![seq!['/']] + ns);
    if root.len() <= ns.len() && ns.take(root.len() as int) == root {
        assert(a =~= b.subrange(0, a.len() as int)) by {
            assert forall|i: int| 0 <= i < a.len() implies a[i] == b[i] by {
                if i > 0 {
                    assert(root[i - 1] == ns.take(root.len() as int)[i - 1]);
                }
            }
        }
    }
    if lies_within(from_root(root), from_root(ns)) {
        assert forall|i: int| 0 <= i < root.len() implies root[i] == ns[i] by {
            assert(a[i + 1] == b.subrange(0, a.len() as int)[i + 1]);
        }
        assert(ns.take(root.len() as int) =~= root);
    }
}

/// What stands below a directory has its name last, and a path below it leads
/// there.
pub proof fn law_below_a_directory(ns: Seq<Seq<char>>, name: Seq<char>)
    requires
        lead_down(ns.push(name)),
        ns.len() > 0,
    ensures
        below(from_root(ns), name) == from_root(ns.push(name)),
        file_name_of(from_root(ns.push(name))) == Some(name),
{
    let all = ns.push(name);
    assert(all[ns.len() as int] == name);
    lemma_from_root(all);
    reveal_strlit("/");
    assert("/"@ =~= seq!['/']);
    law_joining(ns, seq![name], seq!['/']);
    assert(ns + seq![name] =~= all);
    assert(text::joined(seq![name], seq!['/']) == name);
    if is_absolute(name) {
        assert(name.contains(name[0]));
    }
    let last = ns[ns.len() - 1];
    assert(all[ns.len() - 1] == last);
    lemma_last_char(ns);
    assert(from_root(ns).last() == last.last());
    assert(last.contains(last.last()));
    assert(below(from_root(ns), name) =~= from_root(all));
    let c = components(from_root(all));
    assert(c.last() == name);
    if name == seq!['/'] {
        assert(name.contains(name[0]));
    }
}

proof fn lemma_last_char(ns: Seq<Seq<char>>)
    requires
        ns.len() > 0,
        ns.last().len() > 0,
    ensures
        text::joined(ns, seq!['/']).len() > 0,
        text::joined(ns, seq!['/']).last() == ns.last().last(),
{
    if ns.len() > 1 {
        law_joining(ns.drop_last(), seq![ns.last()], seq!['/']);
        assert(ns.drop_last() + seq![ns.last()] =~= ns);
    }
}

/// The extension of a name is what follows its last dot, unless the name begins
/// with it.
pub proof fn law_extensions(stem: Seq<char>, extension: Seq<char>)
    requires
        stem.len() > 0,
        !extension.contains('.'),
    ensures
        name_parts(stem.push('.') + extension) == (stem, Some(extension)),
        name_parts(seq!['.'] + extension) == (seq!['.'] + extension, None::<Seq<char>>),
        name_parts(extension) == (extension, None::<Seq<char>>),
{
    let n = stem.len() as int;
    let name = stem.push('.') + extension;
    lemma_last_dot(stem, extension, extension.len() as int);
    assert(name.take(n) =~= stem);
    assert(name.skip(n + 1) =~= extension);
    let hidden = seq!['.'] + extension;
    lemma_last_dot(Seq::empty(), extension, extension.len() as int);
    assert(Seq::<char>::empty().push('.') + extension =~= hidden);
    lemma_no_dot(extension, extension.len() as int);
}

proof fn lemma_last_dot(stem: Seq<char>, extension: Seq<char>, k: int)
    requires
        0 <= k <= extension.len(),
        !extension.contains('.'),
    ensures
        crate::util::last_dot(stem.push('.') + extension, stem.len() + 1 + k) == Some(
            stem.len() as int,
        ),
    decreases k,
{
    let name = stem.push('.') + extension;
    if k > 0 {
        assert(name[stem.len() + k] == extension[k - 1]);
        assert(extension.contains(extension[k - 1]));
        lemma_last_dot(stem, extension, k - 1);
    }
}

proof fn lemma_no_dot(name: Seq<char>, k: int)
    requires
        0 <= k <= name.len(),
        !name.contains('.'),
    ensures
        crate::util::last_dot(name, k) is None,
    decreases k,
{
    if k > 0 {
        assert(name.contains(name[k - 1]));
        lemma_no_dot(name, k - 1);
    }
}

// ---------------------------------------------------------------------------
// What is shown
// ---------------------------------------------------------------------------

spec fn shifted(spans: Seq<(int, int)>, by: int) -> Seq<(int, int)> {
    spans.map_values(|p: (int, int)| (p.0 + by, p.1 + by))
}

proof fn lemma_spans_concat(a: Seq<char>, b: Seq<char>)
    ensures
        segment_spans(a.push('/') + b) == segment_spans(a) + shifted(
            segment_spans(b),
            a.len() as int + 1,
        ),
        segment_spans(b).len() > 0,
        segment_spans(b)[0].0 == 0,
        segment_spans(b).last().1 == b.len(),
    decreases b.len(),
{
    let s = a.push('/') + b;
    let n = a.len() as int + 1;
    if b.len() == 0 {
        assert(s =~= a.push('/'));
        assert(s.drop_last() =~= a);
        assert(segment_spans(s) =~= segment_spans(a) + shifted(segment_spans(b), n));
    } else {
        lemma_spans_concat(a, b.drop_last());
        assert(s.drop_last() =~= a.push('/') + b.drop_last());
        assert(segment_spans(s) =~= segment_spans(a) + shifted(segment_spans(b), n));
    }
}

proof fn lemma_spans_filter_concat(
    a: Seq<(int, int)>,
    b: Seq<(int, int)>,
    keep: spec_fn((int, int)) -> bool,
)
    ensures
        (a + b).filter(keep) == a.filter(keep) + b.filter(keep),
    decreases b.len(),
{
    reveal(Seq::filter);
    if b.len() == 0 {
        assert(a + b =~= a);
        assert(a.filter(keep) + b.filter(keep) =~= a.filter(keep));
    } else {
        lemma_spans_filter_concat(a, b.drop_last(), keep);
        assert((a + b).drop_last() =~= a + b.drop_last());
        assert((a + b).filter(keep) =~= a.filter(keep) + b.filter(keep));
    }
}

proof fn lemma_all_kept(a: Seq<(int, int)>, keep: spec_fn((int, int)) -> bool)
    requires
        forall|i: int| 0 <= i < a.len() ==> keep(#[trigger] a[i]),
    ensures
        a.filter(keep) == a,
    decreases a.len(),
{
    reveal(Seq::filter);
    if a.len() > 0 {
        let front = a.drop_last();
        assert forall|i: int| 0 <= i < front.len() implies keep(#[trigger] front[i]) by {
            assert(keep(a[i]));
        }
        lemma_all_kept(front, keep);
        assert(keep(a[a.len() - 1]));
        assert(front.push(a.last()) =~= a);
    } else {
        assert(a.filter(keep) =~= a);
    }
}

proof fn lemma_shown_tail(
    workspace: Seq<Seq<char>>,
    ns: Seq<Seq<char>>,
    head: Seq<char>,
    s: Seq<char>,
    rel: Seq<char>,
)
    requires
        lead_down(ns),
        ns.len() > 0,
        rel == text::joined(ns, seq!['/']),
        s == head.push('/') + rel,
        is_absolute(s),
        components(s).len() == 1 + workspace.len() + ns.len(),
    ensures
        tail_text(s, 1 + workspace.len() as int) == rel,
{
    let n = head.len() as int + 1;
    lemma_spans_concat(head, rel);
    lemma_component_spans(s);
    let keep = |p: (int, int)| is_name(s.subrange(p.0, p.1));
    let front = segment_spans(head);
    let back = shifted(segment_spans(rel), n);
    lemma_spans_filter_concat(front, back, keep);
    lemma_segment_spans(rel);
    text::lemma_pieces_joined(ns, '/');
    assert forall|i: int| 0 <= i < back.len() implies keep(#[trigger] back[i]) by {
        let p = segment_spans(rel)[i];
        assert(back[i] == (p.0 + n, p.1 + n));
        assert(s.subrange(p.0 + n, p.1 + n) =~= rel.subrange(p.0, p.1));
        assert(ns[i].len() > 0);
    }
    lemma_all_kept(back, keep);
    let spans = component_spans(s);
    let k = 1 + workspace.len() as int;
    assert(spans =~= seq![(0int, 1int)] + (front.filter(keep) + back));
    assert(back.len() == ns.len());
    assert(front.filter(keep).len() == workspace.len());
    assert(spans[k] == back[0]);
    assert(spans.last() == back.last());
    assert(back[0] == (segment_spans(rel)[0].0 + n, segment_spans(rel)[0].1 + n));
    assert(back.last().1 == rel.len() + n);
    assert(s.subrange(n, s.len() as int) =~= rel);
}

proof fn lemma_shown_below(workspace: Seq<Seq<char>>, ns: Seq<Seq<char>>)
    requires
        lead_down(workspace),
        lead_down(ns),
        ns.len() > 0,
    ensures
        shown_path(from_root(workspace), from_root(workspace + ns)) == text::joined(ns, seq!['/']),
{
    let both = workspace + ns;
    assert forall|i: int| 0 <= i < both.len() implies {
        &&& (#[trigger] both[i]).len() > 0
        &&& both[i] != seq!['.']
        &&& both[i] != seq!['.', '.']
        &&& !both[i].contains('/')
    } by {
        if i < workspace.len() {
            assert(both[i] == workspace[i]);
        } else {
            assert(both[i] == ns[i - workspace.len()]);
        }
    }
    law_containment_goes_by_names(workspace, both);
    assert(both.take(workspace.len() as int) =~= workspace);
    let s = from_root(both);
    let rel = text::joined(ns, seq!['/']);
    let head = if workspace.len() == 0 {
        Seq::<char>::empty()
    } else {
        from_root(workspace)
    };
    if workspace.len() > 0 {
        law_joining(workspace, ns, seq!['/']);
        assert(s =~= head.push('/') + rel);
    } else {
        assert(both =~= ns);
        assert(s =~= head.push('/') + rel);
    }
    lemma_from_root(workspace);
    lemma_from_root(both);
    assert(components(from_root(workspace)) =~= seq![seq!['/']] + workspace);
    assert(components(s) =~= seq![seq!['/']] + both);
    lemma_shown_tail(workspace, ns, head, s, rel);
}

/// A path that lies within the workspace is shown from there on, and any other
/// is shown as it is.
pub proof fn law_paths_are_shown_from_the_workspace(
    workspace: Seq<Seq<char>>,
    ns: Seq<Seq<char>>,
)
    requires
        lead_down(workspace),
        lead_down(ns),
    ensures
        ns.len() > 0 ==> shown_path(from_root(workspace), from_root(workspace + ns))
            == text::joined(ns, seq!['/']),
        shown_path(from_root(workspace), from_root(workspace)) == Seq::<char>::empty(),
        !(workspace.len() <= ns.len() && ns.take(workspace.len() as int) == workspace)
            ==> shown_path(from_root(workspace), from_root(ns)) == from_root(ns),
{
    law_containment_goes_by_names(workspace, ns);
    law_containment_goes_by_names(workspace, workspace);
    assert(workspace.take(workspace.len() as int) =~= workspace);
    lemma_from_root(workspace);
    lemma_component_spans(from_root(workspace));
    if ns.len() > 0 {
        lemma_shown_below(workspace, ns);
    }
}

proof fn lemma_last_kept(a: Seq<(int, int)>, keep: spec_fn((int, int)) -> bool)
    requires
        a.len() > 0,
        keep(a.last()),
    ensures
        a.filter(keep).len() > 0,
        a.filter(keep).last() == a.last(),
{
    reveal(Seq::filter);
}

/// The directory of a path is the path without its last name.
pub proof fn law_directories_hold_their_files(ns: Seq<Seq<char>>, name: Seq<char>)
    requires
        lead_down(ns.push(name)),
    ensures
        parent_of(from_root(ns.push(name))) == Some(from_root(ns)),
        parent_of(from_root(Seq::empty())) is None,
{
    let all = ns.push(name);
    assert(all[ns.len() as int] == name);
    assert forall|i: int| 0 <= i < ns.len() implies {
        &&& (#[trigger] ns[i]).len() > 0
        &&& ns[i] != seq!['.']
        &&& ns[i] != seq!['.', '.']
        &&& !ns[i].contains('/')
    } by {
        assert(all[i] == ns[i]);
    }
    lemma_from_root(all);
    lemma_from_root(ns);
    lemma_from_root(Seq::empty());
    let root = from_root(Seq::empty());
    assert(components(root) =~= seq![seq!['/']]);
    lemma_component_spans(root);
    let s = from_root(all);
    let head = if ns.len() == 0 {
        Seq::<char>::empty()
    } else {
        from_root(ns)
    };
    assert(text::joined(seq![name], seq!['/']) == name);
    if ns.len() > 0 {
        law_joining(ns, seq![name], seq!['/']);
        assert(ns + seq![name] =~= all);
        assert(s =~= head.push('/') + name);
    } else {
        assert(all =~= seq![name]);
        assert(s =~= head.push('/') + name);
    }
    let n = head.len() as int + 1;
    lemma_spans_concat(head, name);
    lemma_spans_concat(Seq::empty(), head);
    lemma_component_spans(s);
    lemma_segment_spans(name);
    lemma_segment_spans(head);
    text::lemma_pieces_single(name, '/');
    let keep = |p: (int, int)| is_name(s.subrange(p.0, p.1));
    let front = segment_spans(head);
    let back = shifted(segment_spans(name), n);
    lemma_spans_filter_concat(front, back, keep);
    assert forall|i: int| 0 <= i < back.len() implies keep(#[trigger] back[i]) by {
        let p = segment_spans(name)[i];
        assert(back[i] == (p.0 + n, p.1 + n));
        assert(s.subrange(p.0 + n, p.1 + n) =~= name.subrange(p.0, p.1));
    }
    lemma_all_kept(back, keep);
    let spans = component_spans(s);
    assert(components(s) =~= seq![seq!['/']] + all);
    assert(components(s).last() == name);
    if name == seq!['/'] {
        assert(name.contains(name[0]));
    }
    assert(spans =~= seq![(0int, 1int)] + (front.filter(keep) + back));
    assert(back.len() == 1);
    assert(front.filter(keep).len() == ns.len());
    if ns.len() > 0 {
        let p = front.last();
        assert(s.subrange(p.0, p.1) =~= head.subrange(p.0, p.1));
        let last = ns[ns.len() - 1];
        lemma_last_segment(ns);
        assert(head.subrange(p.0, p.1) == segments(head).last());
        assert(last.len() > 0 && last != seq!['.']);
        lemma_last_kept(front, keep);
        assert(spans[spans.len() - 2] == p);
        assert(s.take(p.1) =~= head);
    } else {
        assert(spans[spans.len() - 2] == (0int, 1int));
        assert(s.take(1) =~= from_root(ns));
    }
}

proof fn lemma_last_segment(ns: Seq<Seq<char>>)
    requires
        lead_down(ns),
        ns.len() > 0,
    ensures
        segments(from_root(ns)).last() == ns.last(),
{
    let body = text::joined(ns, seq!['/']);
    let none: Seq<char> = Seq::empty();
    text::lemma_pieces_concat(none, body, '/');
    assert(none.push('/') + body =~= from_root(ns));
    assert forall|i: int| 0 <= i < ns.len() implies !(#[trigger] ns[i]).contains('/') by {
        assert(ns[i].len() > 0);
    }
    text::lemma_pieces_joined(ns, '/');
    text::lemma_pieces_single(none, '/');
}

} // verus!
