//! File paths as Unix strings: their components, joining and prefixes.

use vstd::prelude::*;

use crate::text::char_vecs;
use crate::text::join_with;
use crate::text::split_chars;
use crate::text::split_on;
use crate::text::lemma_split_on_nonempty;

verus! {

/// A component of a path, as a value.
pub enum Comp {
    Root,
    Cur,
    Parent,
    Normal(Seq<char>),
}

/// Is `p` absolute (does it begin at the root)?
pub open spec fn is_absolute(p: Seq<char>) -> bool {
    p.len() > 0 && p[0] == '/'
}

/// Does `p` begin with a `.` component (`.` alone, or `./...`)?
pub open spec fn cur_first(p: Seq<char>) -> bool {
    !is_absolute(p) && p.len() >= 1 && p[0] == '.' && (p.len() == 1 || p[1] == '/')
}

/// A piece between separators that yields no component: empty, or `.`.
pub open spec fn trivial(x: Seq<char>) -> bool {
    x.len() == 0 || x == seq!['.']
}

/// The component of a non-trivial piece.
pub open spec fn piece_comp(x: Seq<char>) -> Comp {
    if x == seq!['.', '.'] {
        Comp::Parent
    } else {
        Comp::Normal(x)
    }
}

/// The positions of the non-trivial pieces of `ps`, in order.
pub open spec fn nontrivial_idx(ps: Seq<Seq<char>>) -> Seq<int>
    decreases ps.len(),
{
    if ps.len() == 0 {
        seq![]
    } else if trivial(ps.last()) {
        nontrivial_idx(ps.drop_last())
    } else {
        nontrivial_idx(ps.drop_last()).push(ps.len() - 1)
    }
}

/// The components before the first piece: the root, or a leading `.`.
pub open spec fn header(p: Seq<char>) -> Seq<Comp> {
    if is_absolute(p) {
        seq![Comp::Root]
    } else if cur_first(p) {
        seq![Comp::Cur]
    } else {
        seq![]
    }
}

/// The components of `p`, as `Path::components` gives them on Unix.
pub open spec fn components(p: Seq<char>) -> Seq<Comp> {
    let ps = split_on(p, '/');
    header(p) + nontrivial_idx(ps).map_values(|i: int| piece_comp(ps[i]))
}

/// `b` joined onto `a`, as `Path::join` gives it on Unix.
pub open spec fn join_path(a: Seq<char>, b: Seq<char>) -> Seq<char> {
    if is_absolute(b) {
        b
    } else if a.len() > 0 && a.last() != '/' {
        a.push('/') + b
    } else {
        a + b
    }
}

/// Does the component list `a` begin with `b`?
pub open spec fn comps_start_with(a: Seq<Comp>, b: Seq<Comp>) -> bool {
    b.len() <= a.len() && a.take(b.len() as int) == b
}

/// What remains of the text of `p` once its first `k` components are
/// consumed, as `Components::as_path` gives it.
pub open spec fn remainder(p: Seq<char>, k: nat) -> Seq<char> {
    let ps = split_on(p, '/');
    let idx = nontrivial_idx(ps);
    if k == 0 {
        if idx.len() == 0 {
            if is_absolute(p) {
                seq!['/']
            } else if cur_first(p) {
                seq!['.']
            } else {
                seq![]
            }
        } else {
            join_with(ps.subrange(0, idx.last() + 1), '/')
        }
    } else {
        let m = k - header(p).len();
        if m < idx.len() {
            join_with(ps.subrange(idx[m], idx.last() + 1), '/')
        } else {
            seq![]
        }
    }
}

/// `p` without the leading components of `base`, as `Path::strip_prefix`
/// gives it; `None` if `p` does not begin with them.
pub open spec fn strip_prefix(p: Seq<char>, base: Seq<char>) -> Option<Seq<char>> {
    let cp = components(p);
    let cb = components(base);
    if comps_start_with(cp, cb) {
        Some(remainder(p, cb.len()))
    } else {
        None
    }
}

/// The components of the parent of a path with components `cs`, as
/// `Path::parent` gives them.
pub open spec fn parent_comps(cs: Seq<Comp>) -> Option<Seq<Comp>> {
    if cs.len() > 0 && !(cs.last() is Root) {
        Some(cs.drop_last())
    } else {
        None
    }
}

/// The text of the parent of `p`, as `Path::parent` gives it; `None` for a
/// path without components or ending at the root.
pub open spec fn parent_path(p: Seq<char>) -> Option<Seq<char>> {
    let ps = split_on(p, '/');
    let idx = nontrivial_idx(ps);
    if idx.len() == 0 {
        if cur_first(p) {
            Some(seq![])
        } else {
            None
        }
    } else if idx.len() == 1 {
        if is_absolute(p) {
            Some(seq!['/'])
        } else if cur_first(p) {
            Some(seq!['.'])
        } else {
            Some(seq![])
        }
    } else {
        Some(join_with(ps.subrange(0, idx[idx.len() - 2] + 1), '/'))
    }
}

/// A component of a path.
pub enum Component {
    RootDir,
    CurDir,
    ParentDir,
    Normal(Vec<char>),
}

impl View for Component {
    type V = Comp;

    open spec fn view(&self) -> Comp {
        match self {
            Component::RootDir => Comp::Root,
            Component::CurDir => Comp::Cur,
            Component::ParentDir => Comp::Parent,
            Component::Normal(x) => Comp::Normal(x@),
        }
    }
}

/// The values of a sequence of components.
pub open spec fn comp_views(v: Seq<Component>) -> Seq<Comp> {
    v.map_values(|c: Component| c@)
}

/// Is `x` empty or `.`?
fn is_trivial(x: &[char]) -> (r: bool)
    ensures
        r == trivial(x@),
{
    let r = x.len() == 0 || (x.len() == 1 && x[0] == '.');
    assert(r == trivial(x@)) by {
        if x@.len() == 1 {
            assert(x@ =~= seq![x@[0]]);
        }
    }
    r
}

fn is_parent_piece(x: &[char]) -> (r: bool)
    ensures
        r == (x@ == seq!['.', '.']),
{
    let r = x.len() == 2 && x[0] == '.' && x[1] == '.';
    assert(r == (x@ == seq!['.', '.'])) by {
        if x@.len() == 2 {
            assert(x@ =~= seq![x@[0], x@[1]]);
        }
    }
    r
}

/// The positions of the non-trivial pieces of `ps`.
pub fn nontrivial_positions(ps: &Vec<Vec<char>>) -> (r: Vec<usize>)
    ensures
        r@.map_values(|i: usize| i as int) == nontrivial_idx(char_vecs(ps@)),
        forall|j: int| 0 <= j < r@.len() ==> #[trigger] r@[j] < ps@.len(),
{
    let mut r: Vec<usize> = Vec::new();
    let mut i: usize = 0;
    while i < ps.len()
        invariant
            i <= ps@.len(),
            r@.map_values(|i: usize| i as int) == nontrivial_idx(char_vecs(ps@).take(i as int)),
            forall|j: int| 0 <= j < r@.len() ==> #[trigger] r@[j] < i,
        decreases ps.len() - i,
    {
        assert(char_vecs(ps@).take(i + 1).drop_last() =~= char_vecs(ps@).take(i as int));
        assert(char_vecs(ps@).take(i + 1).last() == ps@[i as int]@);
        if !is_trivial(ps[i].as_slice()) {
            let ghost old_r = r@;
            r.push(i);
            assert(r@.map_values(|i: usize| i as int) =~= old_r.map_values(|i: usize| i as int).push(
                i as int,
            ));
        }
        i = i + 1;
    }
    assert(char_vecs(ps@).take(ps@.len() as int) =~= char_vecs(ps@));
    r
}

/// The components of `p`, as `Path::components` gives them on Unix.
pub fn path_components(p: &[char]) -> (r: Vec<Component>)
    ensures
        comp_views(r@) == components(p@),
{
    let ps = split_chars(p, '/');
    let idx = nontrivial_positions(&ps);
    let ghost pv = char_vecs(ps@);
    let ghost iv = nontrivial_idx(pv);
    let mut r: Vec<Component> = Vec::new();
    let abs = p.len() > 0 && p[0] == '/';
    let cur = !abs && p.len() >= 1 && p[0] == '.' && (p.len() == 1 || p[1] == '/');
    if abs {
        r.push(Component::RootDir);
    } else if cur {
        r.push(Component::CurDir);
    }
    let ghost h = r@;
    assert(comp_views(h) =~= header(p@));
    let mut j: usize = 0;
    while j < idx.len()
        invariant
            j <= idx@.len(),
            idx@.map_values(|i: usize| i as int) == iv,
            forall|k: int| 0 <= k < idx@.len() ==> #[trigger] idx@[k] < ps@.len(),
            pv == char_vecs(ps@),
            pv == split_on(p@, '/'),
            iv == nontrivial_idx(pv),
            comp_views(h) == header(p@),
            comp_views(r@) == comp_views(h) + iv.take(j as int).map_values(|i: int| piece_comp(pv[i])),
        decreases idx.len() - j,
    {
        let k = idx[j];
        assert(iv[j as int] == k as int);
        let piece = &ps[k];
        let c = if is_parent_piece(piece.as_slice()) {
            Component::ParentDir
        } else {
            Component::Normal(crate::text::sub_chars(piece.as_slice(), 0, piece.len()))
        };
        proof {
            if !(c is ParentDir) {
                assert(piece@.subrange(0, piece@.len() as int) =~= piece@);
            }
            assert(c@ == piece_comp(pv[k as int]));
        }
        let ghost old_r = r@;
        r.push(c);
        j = j + 1;
        assert(iv.take(j as int).map_values(|i: int| piece_comp(pv[i])) =~= iv.take(j - 1).map_values(
            |i: int| piece_comp(pv[i]),
        ).push(c@));
        assert(comp_views(r@) =~= comp_views(old_r).push(c@));
    }
    assert(iv.take(iv.len() as int) =~= iv);
    r
}

/// `b` joined onto `a`, as `Path::join` gives it on Unix.
pub fn path_join(a: &[char], b: &[char]) -> (r: Vec<char>)
    ensures
        r@ == join_path(a@, b@),
{
    if b.len() > 0 && b[0] == '/' {
        crate::text::sub_chars(b, 0, b.len())
    } else {
        let mut r = crate::text::sub_chars(a, 0, a.len());
        assert(r@ =~= a@);
        if a.len() > 0 && a[a.len() - 1] != '/' {
            r.push('/');
        }
        crate::text::append_chars(&mut r, b);
        r
    }
}

/// Are the two components equal?
pub fn comp_eq(a: &Component, b: &Component) -> (r: bool)
    ensures
        r == (a@ == b@),
{
    match (a, b) {
        (Component::RootDir, Component::RootDir) => true,
        (Component::CurDir, Component::CurDir) => true,
        (Component::ParentDir, Component::ParentDir) => true,
        (Component::Normal(x), Component::Normal(y)) => {
            if x.len() != y.len() {
                return false;
            }
            let r = crate::text::starts_with_chars(x.as_slice(), y.as_slice());
            assert(r == (x@ == y@)) by {
                assert(x@.take(y@.len() as int) =~= x@);
            }
            r
        },
        _ => false,
    }
}

/// Does the component list `a` begin with `b`?
pub fn comps_prefix(a: &Vec<Component>, b: &Vec<Component>) -> (r: bool)
    ensures
        r == comps_start_with(comp_views(a@), comp_views(b@)),
{
    if b.len() > a.len() {
        return false;
    }
    let mut i: usize = 0;
    while i < b.len()
        invariant
            b@.len() <= a@.len(),
            i <= b@.len(),
            comp_views(a@).take(i as int) == comp_views(b@).take(i as int),
        decreases b.len() - i,
    {
        if !comp_eq(&a[i], &b[i]) {
            assert(comp_views(a@).take(b@.len() as int)[i as int] != comp_views(b@)[i as int]);
            return false;
        }
        i = i + 1;
        assert(comp_views(a@).take(i as int) =~= comp_views(b@).take(i as int));
    }
    assert(comp_views(b@).take(b@.len() as int) =~= comp_views(b@));
    true
}

proof fn lemma_nontrivial_idx(ps: Seq<Seq<char>>)
    ensures
        forall|i: int, j: int|
            0 <= i < j < nontrivial_idx(ps).len() ==> nontrivial_idx(ps)[i] < nontrivial_idx(ps)[j],
        forall|i: int|
            0 <= i < nontrivial_idx(ps).len() ==> 0 <= #[trigger] nontrivial_idx(ps)[i] < ps.len(),
    decreases ps.len(),
{
    if ps.len() > 0 {
        let prev = nontrivial_idx(ps.drop_last());
        lemma_nontrivial_idx(ps.drop_last());
        if !trivial(ps.last()) {
            let cur = prev.push(ps.len() - 1);
            assert(nontrivial_idx(ps) == cur);
            assert forall|i: int, j: int| 0 <= i < j < cur.len() implies cur[i] < cur[j] by {
                if j == cur.len() - 1 {
                    assert(cur[i] == prev[i]);
                }
            }
        }
    }
}

/// `s` without the copies of `c` it begins with.
pub open spec fn strip_leading(s: Seq<char>, c: char) -> Seq<char>
    decreases s.len(),
{
    if s.len() > 0 && s[0] == c {
        strip_leading(s.drop_first(), c)
    } else {
        s
    }
}

/// `s` without the copies of `c` it begins with, as `str::trim_start_matches`
/// gives it.
pub fn strip_leading_chars(s: &[char], c: char) -> (r: Vec<char>)
    ensures
        r@ == strip_leading(s@, c),
{
    let mut i: usize = 0;
    assert(s@.skip(0) =~= s@);
    while i < s.len() && s[i] == c
        invariant
            i <= s@.len(),
            strip_leading(s@, c) == strip_leading(s@.skip(i as int), c),
        decreases s.len() - i,
    {
        assert(s@.skip(i as int).drop_first() =~= s@.skip(i + 1));
        i = i + 1;
    }
    let r = crate::text::sub_chars(s, i, s.len());
    assert(r@ =~= s@.skip(i as int));
    r
}

/// `p` without the leading components of `base`, as `Path::strip_prefix`
/// gives it.
pub fn path_strip_prefix(p: &[char], base: &[char]) -> (r: Option<Vec<char>>)
    ensures
        match strip_prefix(p@, base@) {
            Some(x) => r matches Some(v) && v@ == x,
            None => r is None,
        },
{
    let cp = path_components(p);
    let cb = path_components(base);
    if !comps_prefix(&cp, &cb) {
        return None;
    }
    let k = cb.len();
    assert(comp_views(cb@).len() == k);
    let ps = split_chars(p, '/');
    let idx = nontrivial_positions(&ps);
    let ghost pv = char_vecs(ps@);
    let ghost iv = nontrivial_idx(pv);
    proof {
        lemma_nontrivial_idx(pv);
        assert(iv.len() == idx@.len());
        assert forall|j: int| 0 <= j < idx@.len() implies #[trigger] iv[j] == idx@[j] as int by {
            assert(idx@.map_values(|i: usize| i as int)[j] == idx@[j] as int);
        }
    }
    let abs = p.len() > 0 && p[0] == '/';
    let cur = !abs && p.len() >= 1 && p[0] == '.' && (p.len() == 1 || p[1] == '/');
    let h: usize = if abs || cur { 1 } else { 0 };
    assert(header(p@).len() == h);
    let n = idx.len();
    if k == 0 {
        if n == 0 {
            if abs {
                Some(vec!['/'])
            } else if cur {
                Some(vec!['.'])
            } else {
                Some(Vec::new())
            }
        } else {
            let last = idx[n - 1];
            let plen = ps.len();
            assert(last < plen);
            let v = crate::text::join_chars(&ps, 0, last + 1, '/');
            Some(v)
        }
    } else {
        proof {
            assert(comp_views(cp@).take(k as int) == comp_views(cb@));
            if h == 1 {
                assert(comp_views(cp@)[0] == header(p@)[0]);
            }
        }
        if k < h {
            return Some(Vec::new());
        }
        let m = k - h;
        if m < n {
            let last = idx[n - 1];
            let first = idx[m];
            let plen = ps.len();
            assert(last < plen);
            assert(first <= last) by {
                if m < n - 1 {
                    assert(iv[m as int] < iv[n - 1]);
                }
            }
            let v = crate::text::join_chars(&ps, first, last + 1, '/');
            Some(v)
        } else {
            Some(Vec::new())
        }
    }
}

/// The text of the parent of `p`, as `Path::parent` gives it.
pub fn path_parent(p: &[char]) -> (r: Option<Vec<char>>)
    ensures
        match parent_path(p@) {
            Some(x) => r matches Some(v) && v@ == x,
            None => r is None,
        },
{
    let ps = split_chars(p, '/');
    let idx = nontrivial_positions(&ps);
    let ghost pv = char_vecs(ps@);
    proof {
        assert(idx@.len() == nontrivial_idx(pv).len());
        assert forall|j: int| 0 <= j < idx@.len() implies #[trigger] nontrivial_idx(pv)[j] == idx@[j] as int by {
            assert(idx@.map_values(|i: usize| i as int)[j] == idx@[j] as int);
        }
    }
    let abs = p.len() > 0 && p[0] == '/';
    let cur = !abs && p.len() >= 1 && p[0] == '.' && (p.len() == 1 || p[1] == '/');
    let n = idx.len();
    if n == 0 {
        if cur {
            Some(Vec::new())
        } else {
            None
        }
    } else if n == 1 {
        if abs {
            Some(vec!['/'])
        } else if cur {
            Some(vec!['.'])
        } else {
            Some(Vec::new())
        }
    } else {
        let last = idx[n - 2];
        let plen = ps.len();
        assert(last < plen);
        Some(crate::text::join_chars(&ps, 0, last + 1, '/'))
    }
}

/// `b` joined onto `a`, as `Path::join` gives it on Unix.
pub fn join_str(a: &str, b: &str) -> (r: String)
    ensures
        r@ == join_path(a@, b@),
{
    let ac = crate::text::chars_of(a);
    let bc = crate::text::chars_of(b);
    crate::text::string_from_chars(path_join(ac.as_slice(), bc.as_slice()).as_slice())
}

/// Is `x` a name that stands for a file or directory: not empty, not `.`
/// and not `..`?
pub open spec fn proper_name(x: Seq<char>) -> bool {
    !trivial(x) && x != seq!['.', '.']
}

/// Are all the named components of `cs` proper names?
pub open spec fn names_proper(cs: Seq<Comp>) -> bool {
    forall|j: int| 0 <= j < cs.len() ==> (#[trigger] cs[j] matches Comp::Normal(x) ==> proper_name(x))
}

/// The named components of a path are proper names: `Path::components`
/// never yields an empty, `.` or `..` name.
pub proof fn lemma_components_proper(p: Seq<char>)
    ensures
        names_proper(components(p)),
{
    let ps = split_on(p, '/');
    let idx = nontrivial_idx(ps);
    lemma_nontrivial_idx_marks(ps);
    let cs = components(p);
    let h = header(p);
    assert forall|j: int| 0 <= j < cs.len() implies (#[trigger] cs[j] matches Comp::Normal(x) ==> proper_name(x)) by {
        if j >= h.len() {
            let k = j - h.len();
            assert(cs[j] == piece_comp(ps[idx[k]]));
            assert(!trivial(ps[idx[k]]));
        }
    }
}

proof fn lemma_nontrivial_idx_marks(ps: Seq<Seq<char>>)
    ensures
        forall|k: int| 0 <= k < nontrivial_idx(ps).len() ==> 0 <= #[trigger] nontrivial_idx(ps)[k] < ps.len() && !trivial(ps[nontrivial_idx(ps)[k]]),
    decreases ps.len(),
{
    if ps.len() > 0 {
        lemma_nontrivial_idx_marks(ps.drop_last());
        let prev = nontrivial_idx(ps.drop_last());
        assert forall|k: int| 0 <= k < prev.len() implies #[trigger] ps[prev[k]] == ps.drop_last()[prev[k]] by {}
    }
}

/// Splitting at a separator splits the two sides apart.
pub proof fn lemma_split_on_concat(x: Seq<char>, y: Seq<char>, sep: char)
    ensures
        split_on(x + seq![sep] + y, sep) == split_on(x, sep) + split_on(y, sep),
    decreases y.len(),
{
    let xs = x + seq![sep];
    if y.len() == 0 {
        assert(x + seq![sep] + y =~= xs);
        assert(xs.drop_last() =~= x);
        assert(split_on(y, sep) == seq![Seq::<char>::empty()]);
        assert(split_on(x, sep).push(seq![]) =~= split_on(x, sep) + seq![Seq::<char>::empty()]);
    } else {
        let y1 = y.drop_last();
        let c = y.last();
        lemma_split_on_concat(x, y1, sep);
        let whole = x + seq![sep] + y;
        assert(whole.drop_last() =~= x + seq![sep] + y1);
        assert(whole.last() == c);
        lemma_split_on_nonempty(y1, sep);
        let a = split_on(x, sep);
        let b = split_on(y1, sep);
        if c == sep {
            assert((a + b).push(seq![]) =~= a + b.push(seq![]));
        } else {
            let p = a + b;
            assert(p.last() == b.last());
            assert(p.update(p.len() - 1, p.last().push(c)) =~= a + b.update(b.len() - 1, b.last().push(c)));
        }
    }
}

/// The positions of the non-trivial pieces of two lists, one after the
/// other.
pub proof fn lemma_nontrivial_idx_concat(p: Seq<Seq<char>>, q: Seq<Seq<char>>)
    ensures
        nontrivial_idx(p + q) == nontrivial_idx(p) + nontrivial_idx(q).map_values(|i: int| i + p.len()),
    decreases q.len(),
{
    if q.len() == 0 {
        assert(p + q =~= p);
        assert(nontrivial_idx(q) =~= Seq::<int>::empty());
        assert(nontrivial_idx(p) + nontrivial_idx(q).map_values(|i: int| i + p.len()) =~= nontrivial_idx(p));
    } else {
        lemma_nontrivial_idx_concat(p, q.drop_last());
        assert((p + q).drop_last() =~= p + q.drop_last());
        assert((p + q).last() == q.last());
        let a = nontrivial_idx(p);
        let b = nontrivial_idx(q.drop_last());
        if trivial(q.last()) {
        } else {
            assert(nontrivial_idx(q) == b.push(q.len() - 1));
            assert((a + b.map_values(|i: int| i + p.len())).push(p.len() + q.len() - 1) =~= a + b.push(
                q.len() - 1,
            ).map_values(|i: int| i + p.len()));
        }
    }
}

/// The components of a relative path joined onto an absolute one: those of
/// the absolute path, then those of the relative one (a leading `.`
/// dropped).
pub proof fn lemma_components_join(root: Seq<char>, path: Seq<char>)
    requires
        is_absolute(root),
        !is_absolute(path),
    ensures
        components(join_path(root, path)) == components(root) + if cur_first(path) {
            components(path).drop_first()
        } else {
            components(path)
        },
{
    let ends = root.last() == '/';
    let x = if ends {
        root.drop_last()
    } else {
        root
    };
    let full = join_path(root, path);
    if ends {
        assert(full =~= x + seq!['/'] + path);
        assert(root =~= x + seq!['/'] + Seq::<char>::empty());
    } else {
        assert(full =~= x + seq!['/'] + path);
    }
    let pp = split_on(x, '/');
    let qq = split_on(path, '/');
    lemma_split_on_concat(x, path, '/');
    lemma_nontrivial_idx_concat(pp, qq);
    lemma_nontrivial_idx(pp);
    lemma_nontrivial_idx(qq);
    let sr = split_on(root, '/');
    if ends {
        lemma_split_on_concat(x, Seq::<char>::empty(), '/');
        let e: Seq<Seq<char>> = seq![Seq::<char>::empty()];
        assert(split_on(Seq::<char>::empty(), '/') == e);
        lemma_nontrivial_idx_concat(pp, e);
        assert(nontrivial_idx(e) =~= Seq::<int>::empty()) by {
            assert(e.drop_last() =~= Seq::<Seq<char>>::empty());
            assert(trivial(e.last()));
            assert(nontrivial_idx(e) == nontrivial_idx(e.drop_last()));
            assert(nontrivial_idx(Seq::<Seq<char>>::empty()) == Seq::<int>::empty());
        }
        assert(nontrivial_idx(sr) =~= nontrivial_idx(pp));
    } else {
        assert(sr == pp);
    }
    let np = nontrivial_idx(pp);
    let nq = nontrivial_idx(qq);
    let sf = split_on(full, '/');
    assert(sf == pp + qq);
    assert(header(full) == seq![Comp::Root]);
    assert(header(root) == seq![Comp::Root]);
    let cr = components(root);
    let cf = components(full);
    let cp = components(path);
    let rest = if cur_first(path) {
        cp.drop_first()
    } else {
        cp
    };
    assert(header(path) == if cur_first(path) {
        seq![Comp::Cur]
    } else {
        Seq::<Comp>::empty()
    });
    assert(rest =~= nq.map_values(|i: int| piece_comp(qq[i])));
    assert(cr =~= seq![Comp::Root] + np.map_values(|i: int| piece_comp(sr[i])));
    assert forall|k: int| 0 <= k < np.len() implies #[trigger] sr[np[k]] == sf[np[k]] by {
        assert(0 <= np[k] < pp.len());
        assert(sf[np[k]] == pp[np[k]]);
        if ends {
            assert(sr[np[k]] == pp[np[k]]);
        }
    }
    assert forall|k: int| 0 <= k < nq.len() implies #[trigger] sf[nq[k] + pp.len()] == qq[nq[k]] by {
        assert(0 <= nq[k] < qq.len());
    }
    let nf = nontrivial_idx(sf);
    assert(nf == np + nq.map_values(|i: int| i + pp.len()));
    assert(cf =~= cr + rest) by {
        assert(cf == seq![Comp::Root] + nf.map_values(|i: int| piece_comp(sf[i])));
        assert forall|k: int| 0 <= k < cf.len() implies cf[k] == (cr + rest)[k] by {
            if k > 0 {
                let m = k - 1;
                if m < np.len() {
                    assert(nf[m] == np[m]);
                } else {
                    assert(nf[m] == nq[m - np.len()] + pp.len());
                }
            }
        }
    }
}

/// A relative path without `..` joined onto an absolute root stays below
/// it: the components are those of the root, then only names and `.`,
/// never `..` or another root.
pub proof fn lemma_join_stays_below(root: Seq<char>, path: Seq<char>)
    requires
        is_absolute(root),
    ensures
        !is_absolute(path) && !(exists|i: int| 0 <= i < components(path).len() && components(path)[i] is Parent)
            ==> {
            let cf = components(join_path(root, path));
            let cr = components(root);
            &&& comps_start_with(cf, cr)
            &&& forall|i: int| cr.len() <= i < cf.len() ==> !(cf[i] is Parent) && !(cf[i] is Root)
        },
{
    if !is_absolute(path) && !(exists|i: int| 0 <= i < components(path).len() && components(path)[i] is Parent) {
        lemma_components_join(root, path);
        let cf = components(join_path(root, path));
        let cr = components(root);
        let cp = components(path);
        let rest = if cur_first(path) {
            cp.drop_first()
        } else {
            cp
        };
        assert(cf.take(cr.len() as int) =~= cr);
        let ps = split_on(path, '/');
        lemma_nontrivial_idx_marks(ps);
        assert forall|i: int| cr.len() <= i < cf.len() implies !(cf[i] is Parent) && !(cf[i] is Root) by {
            let j = i - cr.len();
            assert(cf[i] == rest[j]);
            let h = header(path).len();
            let k = if cur_first(path) {
                j + 1
            } else {
                j
            };
            assert(rest[j] == cp[k]);
            assert(k >= h);
            assert(cp[k] == piece_comp(ps[nontrivial_idx(ps)[k - h]]));
            assert(!(cp[k] is Parent));
        }
    }
}

/// The components with `.` dropped and each `..` taking back the name
/// before it; a `..` right after the root stays at the root, and one with
/// no name before it is kept.
pub open spec fn fold_comps(cs: Seq<Comp>) -> Seq<Comp>
    decreases cs.len(),
{
    if cs.len() == 0 {
        seq![]
    } else {
        let prev = fold_comps(cs.drop_last());
        match cs.last() {
            Comp::Cur => prev,
            Comp::Parent => if prev.len() > 0 && prev.last() is Normal {
                prev.drop_last()
            } else if prev.len() > 0 && prev.last() is Root {
                prev
            } else {
                prev.push(Comp::Parent)
            },
            c => prev.push(c),
        }
    }
}

/// The text of a component other than the root.
pub open spec fn comp_text(c: Comp) -> Seq<char> {
    match c {
        Comp::Root => seq!['/'],
        Comp::Cur => seq!['.'],
        Comp::Parent => seq!['.', '.'],
        Comp::Normal(x) => x,
    }
}

/// The path written by its components: `/` for a leading root, the rest
/// joined by `/`.
pub open spec fn comps_text(cs: Seq<Comp>) -> Seq<char> {
    if cs.len() > 0 && cs[0] is Root {
        seq!['/'] + join_with(cs.drop_first().map_values(|c: Comp| comp_text(c)), '/')
    } else {
        join_with(cs.map_values(|c: Comp| comp_text(c)), '/')
    }
}

/// `p` with its `.` and `..` components folded away, without the disk.
pub open spec fn lexical_normal(p: Seq<char>) -> Seq<char> {
    comps_text(fold_comps(components(p)))
}

fn copy_component(c: &Component) -> (r: Component)
    ensures
        r@ == c@,
{
    match c {
        Component::RootDir => Component::RootDir,
        Component::CurDir => Component::CurDir,
        Component::ParentDir => Component::ParentDir,
        Component::Normal(x) => {
            let y = crate::text::sub_chars(x.as_slice(), 0, x.len());
            assert(y@ =~= x@);
            Component::Normal(y)
        },
    }
}

/// The components with `.` and `..` folded away (see `fold_comps`).
pub fn fold_components(cs: &Vec<Component>) -> (r: Vec<Component>)
    ensures
        comp_views(r@) == fold_comps(comp_views(cs@)),
{
    let ghost cv = comp_views(cs@);
    let mut r: Vec<Component> = Vec::new();
    let mut i: usize = 0;
    assert(cv.take(0) =~= Seq::<Comp>::empty());
    assert(comp_views(r@) =~= Seq::<Comp>::empty());
    while i < cs.len()
        invariant
            i <= cs@.len(),
            cv == comp_views(cs@),
            comp_views(r@) == fold_comps(cv.take(i as int)),
        decreases cs.len() - i,
    {
        assert(cv.take(i + 1).drop_last() =~= cv.take(i as int));
        assert(cv.take(i + 1).last() == cs@[i as int]@);
        let ghost old_r = r@;
        match &cs[i] {
            Component::CurDir => {},
            Component::ParentDir => {
                let n = r.len();
                if n > 0 {
                    let last_normal = match &r[n - 1] {
                        Component::Normal(_) => true,
                        _ => false,
                    };
                    let last_root = match &r[n - 1] {
                        Component::RootDir => true,
                        _ => false,
                    };
                    assert(comp_views(old_r).last() == old_r[n - 1]@);
                    if last_normal {
                        r.pop();
                        assert(comp_views(r@) =~= comp_views(old_r).drop_last());
                    } else if !last_root {
                        r.push(Component::ParentDir);
                        assert(comp_views(r@) =~= comp_views(old_r).push(Comp::Parent));
                    }
                } else {
                    r.push(Component::ParentDir);
                    assert(comp_views(r@) =~= comp_views(old_r).push(Comp::Parent));
                }
            },
            c => {
                let d = copy_component(c);
                r.push(d);
                assert(comp_views(r@) =~= comp_views(old_r).push(cs@[i as int]@));
            },
        }
        i = i + 1;
    }
    assert(cv.take(cv.len() as int) =~= cv);
    r
}

fn component_text(c: &Component) -> (r: Vec<char>)
    ensures
        r@ == comp_text(c@),
{
    match c {
        Component::RootDir => vec!['/'],
        Component::CurDir => vec!['.'],
        Component::ParentDir => vec!['.', '.'],
        Component::Normal(x) => {
            let y = crate::text::sub_chars(x.as_slice(), 0, x.len());
            assert(y@ =~= x@);
            y
        },
    }
}

/// The path written by its components (see `comps_text`).
pub fn components_text(cs: &Vec<Component>) -> (r: Vec<char>)
    ensures
        r@ == comps_text(comp_views(cs@)),
{
    let ghost cv = comp_views(cs@);
    let root = cs.len() > 0 && match &cs[0] {
        Component::RootDir => true,
        _ => false,
    };
    let start: usize = if root {
        1
    } else {
        0
    };
    assert(root == (cv.len() > 0 && cv[0] is Root));
    let ghost rest = cv.subrange(start as int, cv.len() as int);
    let mut pieces: Vec<Vec<char>> = Vec::new();
    let mut i: usize = start;
    while i < cs.len()
        invariant
            start <= i <= cs@.len(),
            cv == comp_views(cs@),
            pieces@.len() == i - start,
            forall|k: int| 0 <= k < pieces@.len() ==> #[trigger] pieces@[k]@ == comp_text(cv[k + start]),
        decreases cs.len() - i,
    {
        let t = component_text(&cs[i]);
        pieces.push(t);
        i = i + 1;
    }
    let joined = crate::text::join_chars(&pieces, 0, pieces.len(), '/');
    assert(char_vecs(pieces@).subrange(0, pieces@.len() as int) =~= rest.map_values(|c: Comp| comp_text(c)));
    if root {
        assert(rest =~= cv.drop_first());
        let mut r = vec!['/'];
        crate::text::append_chars(&mut r, joined.as_slice());
        r
    } else {
        assert(rest =~= cv);
        joined
    }
}

} // verus!
