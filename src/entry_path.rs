use vstd::prelude::*;

use crate::error::{ArchiveError, FormatIssue};

verus! {

/// Relies on std's `String::push`: appends one char at the end.
#[verifier::external_body]
pub(crate) fn push_char(s: &mut String, c: char)
    ensures
        final(s)@ == old(s)@.push(c),
{
    s.push(c)
}

/// Whether `c` occurs in `s`.
pub open spec fn has_char(s: Seq<char>, c: char) -> bool
    decreases s.len(),
{
    s.len() > 0 && (s.last() == c || has_char(s.drop_last(), c))
}

/// Whether `p` is one of the parts in `ps`.
pub open spec fn has_part(ps: Seq<Seq<char>>, p: Seq<char>) -> bool
    decreases ps.len(),
{
    ps.len() > 0 && (ps.last() == p || has_part(ps.drop_last(), p))
}

/// The characters after the last '/' of `s` (all of `s` when it has none).
pub open spec fn open_part(s: Seq<char>) -> Seq<char>
    decreases s.len(),
{
    if s.len() == 0 {
        Seq::empty()
    } else if s.last() == '/' {
        Seq::empty()
    } else {
        open_part(s.drop_last()).push(s.last())
    }
}

/// The parts of `s` that a '/' has closed, in order.
pub open spec fn closed_parts(s: Seq<char>) -> Seq<Seq<char>>
    decreases s.len(),
{
    if s.len() == 0 {
        Seq::empty()
    } else if s.last() == '/' {
        closed_parts(s.drop_last()).push(open_part(s.drop_last()))
    } else {
        closed_parts(s.drop_last())
    }
}

/// `s` split at every '/': "a//b/" gives "a", "", "b", "".
pub open spec fn parts(s: Seq<char>) -> Seq<Seq<char>> {
    closed_parts(s).push(open_part(s))
}

pub open spec fn parent_ref() -> Seq<char> {
    seq!['.', '.']
}

/// A part that names something: neither empty nor `.`.
pub open spec fn is_named(p: Seq<char>) -> bool {
    p.len() > 0 && p != seq!['.']
}

/// The parts of `ps` that name something, in order.
pub open spec fn named(ps: Seq<Seq<char>>) -> Seq<Seq<char>>
    decreases ps.len(),
{
    if ps.len() == 0 {
        Seq::empty()
    } else if is_named(ps.last()) {
        named(ps.drop_last()).push(ps.last())
    } else {
        named(ps.drop_last())
    }
}

/// `root` followed by '/' and each of `ps` in turn.
pub open spec fn joined(root: Seq<char>, ps: Seq<Seq<char>>) -> Seq<char>
    decreases ps.len(),
{
    if ps.len() == 0 {
        root
    } else {
        joined(root, ps.drop_last()) + seq!['/'] + ps.last()
    }
}

/// Why an entry name cannot be placed under a destination root on a host
/// whose path separator is `sep`, if it cannot.
pub open spec fn name_issue(name: Seq<char>, sep: char) -> Option<FormatIssue> {
    if name.len() == 0 {
        Some(FormatIssue::EmptyName)
    } else if name[0] == '/' {
        Some(FormatIssue::AbsoluteName)
    } else if sep != '/' && has_char(name, sep) {
        Some(FormatIssue::HostSeparator)
    } else if has_part(parts(name), parent_ref()) {
        Some(FormatIssue::ParentReference)
    } else {
        None
    }
}

/// Where an entry named `name` lands under `root`.
pub open spec fn entry_target(root: Seq<char>, name: Seq<char>) -> Seq<char> {
    joined(root, named(parts(name)))
}

/// The directory that holds the entry named `name` under `root`.
pub open spec fn entry_parent(root: Seq<char>, name: Seq<char>) -> Seq<char> {
    joined(root, named(parts(name)).drop_last())
}

/// An entry name resolved against a destination root.
#[derive(Debug, PartialEq, Eq)]
pub struct ResolvedEntry {
    /// The path the entry is written to.
    pub target: String,
    /// The directory that holds `target`.
    pub parent: String,
    /// Whether the name kept at least one component.
    pub has_file_name: bool,
}

/// Whether `s` is exactly `..`.
fn is_parent_ref(s: &String) -> (r: bool)
    ensures
        r == (s@ == parent_ref()),
{
    let n = s.as_str().unicode_len();
    if n != 2 {
        return false;
    }
    let a = s.as_str().get_char(0);
    let b = s.as_str().get_char(1);
    if a == '.' && b == '.' {
        assert(s@ =~= parent_ref());
        true
    } else {
        false
    }
}

/// Whether `s` names something (neither empty nor `.`).
fn names_something(s: &String) -> (r: bool)
    ensures
        r == is_named(s@),
{
    let n = s.as_str().unicode_len();
    if n == 0 {
        return false;
    }
    if n == 1 && s.as_str().get_char(0) == '.' {
        assert(s@ =~= seq!['.']);
        return false;
    }
    assert(n == 1 ==> s@ != seq!['.'] || s@[0] == '.');
    true
}

/// Appends '/' and `part` to `path`.
fn push_part(path: &mut String, part: &String)
    ensures
        final(path)@ == old(path)@ + seq!['/'] + part@,
{
    push_char(path, '/');
    path.append(part.as_str());
}

/// The part of `s` after its last '/'.
pub(crate) fn last_part(s: &str) -> (r: String)
    ensures
        r@ == open_part(s@),
{
    let n = s.unicode_len();
    let mut part = String::new();
    let mut i: usize = 0;
    while i < n
        invariant
            n == s@.len(),
            i <= n,
            part@ == open_part(s@.take(i as int)),
        decreases n - i,
    {
        let c = s.get_char(i);
        assert(s@.take(i + 1).drop_last() =~= s@.take(i as int));
        if c == '/' {
            part = String::new();
        } else {
            push_char(&mut part, c);
        }
        i = i + 1;
    }
    assert(s@.take(n as int) =~= s@);
    part
}

/// `open_part` of `s` followed by a tail without '/' is the open part of `s`
/// followed by that tail.
pub proof fn lemma_open_part_tail(s: Seq<char>, t: Seq<char>)
    requires
        !has_char(t, '/'),
    ensures
        open_part(s + t) == open_part(s) + t,
    decreases t.len(),
{
    if t.len() == 0 {
        assert(s + t =~= s);
        assert(open_part(s) + t =~= open_part(s));
    } else {
        let u = t.drop_last();
        lemma_open_part_tail(s, u);
        assert((s + t).drop_last() =~= s + u);
        assert(open_part(s) + t =~= (open_part(s) + u).push(t.last()));
    }
}

/// Resolves the entry name `name` (components separated by '/') against the
/// destination root `root` on a host whose path separator is `sep`. Empty
/// and `.` components are dropped; a name that is empty, absolute, holds a
/// `..` component, or holds the host separator where that is not '/', is
/// refused, so that whatever is resolved stays under `root`.
pub fn resolve_entry(root: &str, name: &str, sep: char) -> (r: Result<ResolvedEntry, ArchiveError>)
    ensures
        r is Err <==> name_issue(name@, sep) is Some,
        r matches Err(e) ==> e == ArchiveError::Format(name_issue(name@, sep)->0),
        r matches Ok(res) ==> {
            &&& res.target@ == entry_target(root@, name@)
            &&& res.has_file_name == (named(parts(name@)).len() > 0)
            &&& res.has_file_name ==> res.parent@ == entry_parent(root@, name@)
        },
{
    let n = name.unicode_len();
    if n == 0 {
        return Err(ArchiveError::Format(FormatIssue::EmptyName));
    }
    if name.get_char(0) == '/' {
        return Err(ArchiveError::Format(FormatIssue::AbsoluteName));
    }
    let ghost s = name@;
    let mut target = String::from_str(root);
    let mut parent = String::from_str(root);
    let mut part = String::new();
    let mut has_file_name = false;
    let mut seen_sep = false;
    let mut up = false;
    let mut i: usize = 0;
    while i < n
        invariant
            n == s.len(),
            s == name@,
            i <= n,
            part@ == open_part(s.take(i as int)),
            target@ == joined(root@, named(closed_parts(s.take(i as int)))),
            has_file_name == (named(closed_parts(s.take(i as int))).len() > 0),
            has_file_name ==> parent@ == joined(
                root@,
                named(closed_parts(s.take(i as int))).drop_last(),
            ),
            seen_sep == has_char(s.take(i as int), sep),
            up == has_part(closed_parts(s.take(i as int)), parent_ref()),
        decreases n - i,
    {
        let c = name.get_char(i);
        let ghost before = s.take(i as int);
        assert(s.take(i + 1).drop_last() =~= before);
        assert(s.take(i + 1).last() == c);
        if c == sep {
            seen_sep = true;
        }
        if c == '/' {
            let ghost cp = closed_parts(before);
            assert(closed_parts(s.take(i + 1)) == cp.push(part@));
            assert(cp.push(part@).drop_last() =~= cp);
            if is_parent_ref(&part) {
                up = true;
            }
            if names_something(&part) {
                parent = target.clone();
                push_part(&mut target, &part);
                has_file_name = true;
                assert(named(cp.push(part@)) == named(cp).push(part@));
                assert(named(cp.push(part@)).drop_last() =~= named(cp));
            }
            part = String::new();
        } else {
            push_char(&mut part, c);
        }
        i = i + 1;
    }
    assert(s.take(n as int) =~= s);
    assert(parts(s).drop_last() =~= closed_parts(s));
    assert(parts(s).last() == part@);
    if is_parent_ref(&part) {
        up = true;
    }
    if sep != '/' && seen_sep {
        return Err(ArchiveError::Format(FormatIssue::HostSeparator));
    }
    if up {
        return Err(ArchiveError::Format(FormatIssue::ParentReference));
    }
    if names_something(&part) {
        parent = target.clone();
        push_part(&mut target, &part);
        has_file_name = true;
        assert(named(parts(s)).drop_last() =~= named(closed_parts(s)));
    }
    Ok(ResolvedEntry { target, parent, has_file_name })
}

/// A component that can stand in a resolved path: it names something, is not
/// `..`, and holds neither '/' nor the host separator `sep`.
pub open spec fn plain_part(p: Seq<char>, sep: char) -> bool {
    is_named(p) && p != parent_ref() && !has_char(p, '/') && !has_char(p, sep)
}

proof fn lemma_has_char_push(s: Seq<char>, x: char, c: char)
    ensures
        has_char(s.push(x), c) == (x == c || has_char(s, c)),
{
    assert(s.push(x).drop_last() =~= s);
}

proof fn lemma_open_part_chars(s: Seq<char>, c: char)
    ensures
        has_char(open_part(s), c) ==> (c != '/' && has_char(s, c)),
    decreases s.len(),
{
    if s.len() > 0 {
        let t = s.drop_last();
        assert(s =~= t.push(s.last()));
        lemma_open_part_chars(t, c);
        lemma_has_char_push(t, s.last(), c);
        if s.last() != '/' {
            lemma_has_char_push(open_part(t), s.last(), c);
        }
    }
}

proof fn lemma_closed_parts_chars(s: Seq<char>, c: char)
    ensures
        forall|k: int|
            0 <= k < closed_parts(s).len() && has_char(#[trigger] closed_parts(s)[k], c) ==> (c
                != '/' && has_char(s, c)),
    decreases s.len(),
{
    if s.len() > 0 {
        let t = s.drop_last();
        assert(s =~= t.push(s.last()));
        lemma_closed_parts_chars(t, c);
        lemma_open_part_chars(t, c);
        lemma_has_char_push(t, s.last(), c);
        let cs = closed_parts(s);
        if s.last() == '/' {
            assert(cs == closed_parts(t).push(open_part(t)));
            assert forall|k: int|
                0 <= k < cs.len() && has_char(#[trigger] cs[k], c) implies (c != '/' && has_char(
                s,
                c,
            )) by {
                if k < cs.len() - 1 {
                    assert(cs[k] == closed_parts(t)[k]);
                }
            }
        } else {
            assert(cs == closed_parts(t));
        }
    }
}

proof fn lemma_absent_part(ps: Seq<Seq<char>>, p: Seq<char>)
    ensures
        !has_part(ps, p) ==> forall|k: int| 0 <= k < ps.len() ==> #[trigger] ps[k] != p,
    decreases ps.len(),
{
    if ps.len() > 0 {
        lemma_absent_part(ps.drop_last(), p);
        if !has_part(ps, p) {
            assert forall|k: int| 0 <= k < ps.len() implies #[trigger] ps[k] != p by {
                if k < ps.len() - 1 {
                    assert(ps[k] == ps.drop_last()[k]);
                }
            }
        }
    }
}

proof fn lemma_named_plain(ps: Seq<Seq<char>>, sep: char)
    requires
        forall|k: int| 0 <= k < ps.len() && is_named(#[trigger] ps[k]) ==> plain_part(ps[k], sep),
    ensures
        forall|k: int| 0 <= k < named(ps).len() ==> plain_part(#[trigger] named(ps)[k], sep),
    decreases ps.len(),
{
    if ps.len() > 0 {
        let qs = ps.drop_last();
        assert forall|k: int| 0 <= k < qs.len() && is_named(#[trigger] qs[k]) implies plain_part(
            qs[k],
            sep,
        ) by {
            assert(qs[k] == ps[k]);
        }
        lemma_named_plain(qs, sep);
        assert(ps.last() == ps[ps.len() - 1]);
        let ns = named(ps);
        if is_named(ps.last()) {
            assert(ns == named(qs).push(ps.last()));
            assert forall|k: int| 0 <= k < ns.len() implies plain_part(#[trigger] ns[k], sep) by {
                if k < ns.len() - 1 {
                    assert(ns[k] == named(qs)[k]);
                }
            }
        } else {
            assert(ns == named(qs));
        }
    }
}

proof fn lemma_joined_prefix(root: Seq<char>, ps: Seq<Seq<char>>)
    ensures
        joined(root, ps).len() >= root.len(),
        joined(root, ps).take(root.len() as int) == root,
    decreases ps.len(),
{
    if ps.len() > 0 {
        lemma_joined_prefix(root, ps.drop_last());
        let j = joined(root, ps.drop_last());
        assert((j + seq!['/'] + ps.last()).take(root.len() as int) =~= j.take(root.len() as int));
    }
}

/// An entry name that resolves lands inside the destination root: the target
/// begins with the root, and every component added below it is a plain name
/// (not `..`, not empty, no separator), so no entry can climb out of the root.
pub proof fn lemma_target_stays_under_root(root: Seq<char>, name: Seq<char>, sep: char)
    requires
        name_issue(name, sep) is None,
    ensures
        entry_target(root, name).len() >= root.len(),
        entry_target(root, name).take(root.len() as int) == root,
        forall|k: int|
            0 <= k < named(parts(name)).len() ==> plain_part(
                #[trigger] named(parts(name))[k],
                sep,
            ),
{
    let ps = parts(name);
    lemma_joined_prefix(root, named(ps));
    lemma_closed_parts_chars(name, '/');
    lemma_closed_parts_chars(name, sep);
    lemma_open_part_chars(name, '/');
    lemma_open_part_chars(name, sep);
    lemma_absent_part(ps, parent_ref());
    assert forall|k: int| 0 <= k < ps.len() && is_named(#[trigger] ps[k]) implies plain_part(
        ps[k],
        sep,
    ) by {
        if k < ps.len() - 1 {
            assert(ps[k] == closed_parts(name)[k]);
        }
    }
    lemma_named_plain(ps, sep);
}

proof fn lemma_joined_closed_parts(root: Seq<char>, s: Seq<char>)
    requires
        forall|k: int| 0 <= k < closed_parts(s).len() ==> is_named(#[trigger] closed_parts(s)[k]),
    ensures
        named(closed_parts(s)) == closed_parts(s),
        joined(root, closed_parts(s)) + seq!['/'] + open_part(s) == root + seq!['/'] + s,
    decreases s.len(),
{
    if s.len() == 0 {
        assert(root + seq!['/'] + open_part(s) =~= root + seq!['/'] + s);
    } else {
        let t = s.drop_last();
        let x = s.last();
        assert(s =~= t.push(x));
        if x == '/' {
            let cs = closed_parts(s);
            assert(cs.drop_last() =~= closed_parts(t));
            assert forall|k: int|
                0 <= k < closed_parts(t).len() implies is_named(#[trigger] closed_parts(t)[k]) by {
                assert(closed_parts(t)[k] == cs[k]);
            }
            lemma_joined_closed_parts(root, t);
            assert(is_named(cs[cs.len() - 1]));
            assert(joined(root, cs) + seq!['/'] + open_part(s) =~= root + seq!['/'] + t + seq![
                '/',
            ]);
        } else {
            lemma_joined_closed_parts(root, t);
            assert(closed_parts(s) == closed_parts(t));
            assert(open_part(s) == open_part(t).push(x));
            let j = joined(root, closed_parts(t));
            assert((j + seq!['/'] + open_part(t)).push(x) =~= j + seq!['/'] + open_part(t).push(
                x,
            ));
            assert((root + seq!['/'] + t).push(x) =~= root + seq!['/'] + t.push(x));
        }
    }
}

/// A name whose every '/'-separated component names something lands exactly
/// at the root, a '/', and the name: what a builder stores as `foo/bar.txt`
/// is extracted to `root/foo/bar.txt`.
pub proof fn lemma_plain_name_target(root: Seq<char>, name: Seq<char>)
    requires
        forall|k: int| 0 <= k < parts(name).len() ==> is_named(#[trigger] parts(name)[k]),
    ensures
        entry_target(root, name) == root + seq!['/'] + name,
{
    let ps = parts(name);
    assert forall|k: int|
        0 <= k < closed_parts(name).len() implies is_named(#[trigger] closed_parts(name)[k]) by {
        assert(closed_parts(name)[k] == ps[k]);
    }
    lemma_joined_closed_parts(root, name);
    assert(ps.drop_last() =~= closed_parts(name));
    assert(is_named(ps[ps.len() - 1]));
}

} // verus!
