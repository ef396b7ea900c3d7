use vstd::prelude::*;

use crate::entry_path::push_char;

verus! {

/// `s` with each host separator `sep` written as '/'.
pub open spec fn with_slashes(s: Seq<char>, sep: char) -> Seq<char> {
    s.map_values(|c: char| if c == sep { '/' } else { c })
}

/// Whether `c` separates path components on a host whose separator is
/// `sep`; '/' separates on every host.
pub open spec fn is_separator(c: char, sep: char) -> bool {
    c == sep || c == '/'
}

fn separates(c: char, sep: char) -> (r: bool)
    ensures
        r == is_separator(c, sep),
{
    c == sep || c == '/'
}

/// `s` without the run of separators it starts with.
pub open spec fn trim_leading(s: Seq<char>, sep: char) -> Seq<char>
    decreases s.len(),
{
    if s.len() > 0 && is_separator(s[0], sep) {
        trim_leading(s.drop_first(), sep)
    } else {
        s
    }
}

/// The part of `path` below the directory `root`, for a `path` that lies
/// strictly inside it; paths use the host separator `sep` (or '/').
pub open spec fn below(root: Seq<char>, path: Seq<char>, sep: char) -> Option<Seq<char>> {
    if path.len() >= root.len() && path.take(root.len() as int) == root {
        let rest = path.skip(root.len() as int);
        let name = trim_leading(rest, sep);
        if name.len() > 0 && (name.len() < rest.len() || (root.len() > 0 && is_separator(
            root.last(),
            sep,
        ))) {
            Some(name)
        } else {
            None
        }
    } else {
        None
    }
}

proof fn lemma_trim_leading_len(s: Seq<char>, sep: char)
    ensures
        trim_leading(s, sep).len() <= s.len(),
        trim_leading(s, sep).len() < s.len() <==> (s.len() > 0 && is_separator(s[0], sep)),
    decreases s.len(),
{
    if s.len() > 0 && is_separator(s[0], sep) {
        lemma_trim_leading_len(s.drop_first(), sep);
    }
}

/// Whether the first `root@.len()` chars of `path` are those of `root`.
pub(crate) fn starts_with(path: &str, root: &str) -> (r: bool)
    ensures
        r == (path@.len() >= root@.len() && path@.take(root@.len() as int) == root@),
{
    let n = root.unicode_len();
    let m = path.unicode_len();
    if m < n {
        return false;
    }
    let mut k: usize = 0;
    while k < n
        invariant
            n == root@.len(),
            m == path@.len(),
            n <= m,
            k <= n,
            forall|j: int| 0 <= j < k ==> path@[j] == root@[j],
        decreases n - k,
    {
        if path.get_char(k) != root.get_char(k) {
            assert(path@.take(n as int)[k as int] != root@[k as int]);
            return false;
        }
        k = k + 1;
    }
    assert(path@.take(n as int) =~= root@);
    true
}

/// Whether the last `tail@.len()` chars of `s` are those of `tail`.
pub(crate) fn ends_with(s: &str, tail: &str) -> (r: bool)
    ensures
        r == (s@.len() >= tail@.len() && s@.skip(s@.len() - tail@.len()) == tail@),
{
    let n = tail.unicode_len();
    let m = s.unicode_len();
    if m < n {
        return false;
    }
    let d: usize = m - n;
    let mut k: usize = 0;
    while k < n
        invariant
            n == tail@.len(),
            m == s@.len(),
            d == m - n,
            k <= n,
            forall|j: int| 0 <= j < k ==> s@[d + j] == tail@[j],
        decreases n - k,
    {
        if s.get_char(d + k) != tail.get_char(k) {
            assert(s@.skip(d as int)[k as int] != tail@[k as int]);
            return false;
        }
        k = k + 1;
    }
    assert(s@.skip(d as int) =~= tail@);
    true
}

/// The name under which the file or directory at `path`, met while walking
/// the directory `root`, is stored in an archive: its path relative to
/// `root`, with '/' between components whatever the host separator `sep`
/// ('/' is taken as a separator on every host).
/// `None` for `root` itself and for a path outside it.
pub fn relative_entry_name(root: &str, path: &str, sep: char) -> (r: Option<String>)
    ensures
        r is Some <==> below(root@, path@, sep) is Some,
        r matches Some(name) ==> {
            &&& name@ == with_slashes(below(root@, path@, sep)->0, sep)
            &&& sep != '/' ==> forall|k: int| 0 <= k < name@.len() ==> name@[k] != sep
        },
{
    if !starts_with(path, root) {
        return None;
    }
    let n_root = root.unicode_len();
    let n = path.unicode_len();
    let ghost rest = path@.skip(n_root as int);
    let mut i: usize = n_root;
    while i < n && separates(path.get_char(i), sep)
        invariant
            n_root <= i <= n,
            n == path@.len(),
            n_root == root@.len(),
            rest == path@.skip(n_root as int),
            trim_leading(rest, sep) == trim_leading(path@.skip(i as int), sep),
            i > n_root ==> is_separator(path@[n_root as int], sep),
        decreases n - i,
    {
        assert(path@.skip(i as int).drop_first() =~= path@.skip(i + 1));
        i = i + 1;
    }
    let ghost name = path@.skip(i as int);
    assert(trim_leading(name, sep) == name);
    proof {
        lemma_trim_leading_len(rest, sep);
    }
    let mut boundary = i > n_root;
    if n_root > 0 && separates(root.get_char(n_root - 1), sep) {
        boundary = true;
    }
    if i == n || !boundary {
        return None;
    }
    let mut out = String::new();
    let mut j: usize = i;
    while j < n
        invariant
            i <= j <= n,
            n == path@.len(),
            name == path@.skip(i as int),
            out@ == with_slashes(name.take(j - i), sep),
        decreases n - j,
    {
        let c = path.get_char(j);
        assert(name.take(j + 1 - i) =~= name.take(j - i).push(c));
        if c == sep {
            push_char(&mut out, '/');
        } else {
            push_char(&mut out, c);
        }
        assert(out@ =~= with_slashes(name.take(j + 1 - i), sep));
        j = j + 1;
    }
    assert(name.take(n - i) =~= name);
    Some(out)
}

/// The name under which a walked path is stored in a zip archive: files
/// only, named as `relative_entry_name` names them; directories are implied
/// by the names of the files they hold.
pub fn zip_entry_name(root: &str, path: &str, is_dir: bool, sep: char) -> (r: Option<String>)
    ensures
        r is Some <==> (!is_dir && below(root@, path@, sep) is Some),
        r matches Some(name) ==> {
            &&& name@ == with_slashes(below(root@, path@, sep)->0, sep)
            &&& sep != '/' ==> forall|k: int| 0 <= k < name@.len() ==> name@[k] != sep
        },
{
    if is_dir {
        None
    } else {
        relative_entry_name(root, path, sep)
    }
}

/// What the gzip encoder of `async-compression`, at its default level, makes of `data`.
pub uninterp spec fn gzip_of(data: Seq<u8>) -> Seq<u8>;

/// The three bytes every gzip member starts with: the magic number and the deflate method.
pub open spec fn gzip_magic() -> Seq<u8> {
    seq![0x1fu8, 0x8bu8, 0x08u8]
}

/// Relies on `async_compression::futures::bufread::GzipEncoder`, read to its
/// end: a gzip member made of a 10-byte header that starts with 1f 8b 08, the
/// deflated data, and an 8-byte trailer. Over a byte slice the encoder never
/// waits and never fails, so the read completes at its first poll.
#[verifier::external_body]
fn gzip_encode(data: &[u8]) -> (r: Option<Vec<u8>>)
    ensures
        r is Some,
        r matches Some(v) ==> {
            &&& v@ == gzip_of(data@)
            &&& v@.len() >= 18
            &&& v@.take(3) == gzip_magic()
        },
{
    let mut out = Vec::new();
    let mut encoder = async_compression::futures::bufread::GzipEncoder::new(data);
    let read = futures::io::AsyncReadExt::read_to_end(&mut encoder, &mut out);
    match futures::FutureExt::now_or_never(read) {
        Some(Ok(_)) => Some(out),
        _ => None,
    }
}

/// Compresses a finished container, such as a tar archive held in memory,
/// into one gzip stream.
pub fn gzip_container(container: &Vec<u8>) -> (r: Vec<u8>)
    ensures
        r@ == gzip_of(container@),
        r@.len() >= 18,
        r@.take(3) == gzip_magic(),
{
    match gzip_encode(container.as_slice()) {
        Some(v) => v,
        None => Vec::new(),
    }
}

/// `sep` followed by each of `ps`, with `sep` between them: the part of a
/// host path that follows the directory holding the components `ps`.
pub open spec fn host_tail(ps: Seq<Seq<char>>, sep: char) -> Seq<char>
    decreases ps.len(),
{
    if ps.len() == 0 {
        Seq::empty()
    } else {
        seq![sep] + ps[0] + host_tail(ps.drop_first(), sep)
    }
}

proof fn lemma_with_slashes_tail(ps: Seq<Seq<char>>, sep: char)
    requires
        forall|i: int, j: int|
            0 <= i < ps.len() && 0 <= j < ps[i].len() ==> !is_separator(#[trigger] ps[i][j], sep),
    ensures
        with_slashes(host_tail(ps, sep), sep) == host_tail(ps, '/'),
    decreases ps.len(),
{
    if ps.len() > 0 {
        let qs = ps.drop_first();
        assert forall|i: int, j: int|
            0 <= i < qs.len() && 0 <= j < qs[i].len() implies !is_separator(
            #[trigger] qs[i][j],
            sep,
        ) by {
            assert(qs[i] == ps[i + 1]);
        }
        lemma_with_slashes_tail(qs, sep);
        assert forall|j: int| 0 <= j < ps[0].len() implies ps[0][j] != sep by {
            assert(!is_separator(ps[0][j], sep));
        }
        assert(with_slashes(ps[0], sep) =~= ps[0]);
        assert(with_slashes(host_tail(ps, sep), sep) =~= seq!['/'] + with_slashes(ps[0], sep)
            + with_slashes(host_tail(qs, sep), sep));
    }
}

/// A walked path made of the root, the host separator and the components
/// `c1`, ..., `ck` (none of them empty or holding a separator) is stored
/// under the name `c1/.../ck`, whatever the host separator: nested entries
/// get forward slashes in zip and tar archives alike.
pub proof fn lemma_nested_name(root: Seq<char>, ps: Seq<Seq<char>>, sep: char)
    requires
        ps.len() > 0,
        forall|i: int| 0 <= i < ps.len() ==> (#[trigger] ps[i]).len() > 0,
        forall|i: int, j: int|
            0 <= i < ps.len() && 0 <= j < ps[i].len() ==> !is_separator(#[trigger] ps[i][j], sep),
    ensures
        below(root, root + host_tail(ps, sep), sep) == Some(host_tail(ps, sep).drop_first()),
        with_slashes(host_tail(ps, sep).drop_first(), sep) == host_tail(ps, '/').drop_first(),
{
    let t = host_tail(ps, sep);
    let path = root + t;
    assert(path.take(root.len() as int) =~= root);
    assert(path.skip(root.len() as int) =~= t);
    assert(ps[0].len() > 0);
    assert(!is_separator(ps[0][0], sep));
    assert(t.drop_first() =~= ps[0] + host_tail(ps.drop_first(), sep));
    assert(t.drop_first()[0] == ps[0][0]);
    assert(trim_leading(t.drop_first(), sep) == t.drop_first());
    assert(trim_leading(t, sep) == t.drop_first());
    lemma_with_slashes_tail(ps, sep);
    assert(with_slashes(t.drop_first(), sep) =~= with_slashes(t, sep).drop_first());
}

} // verus!
