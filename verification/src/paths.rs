//! Unix paths as `std::path` reads them: components, joining, lexical
//! normalization and prefix tests.
use vstd::prelude::*;
use crate::text::{
    append_chars, char_views, chars_equal, chars_of, chars_range, index_of, join, join_chars,
    lemma_index_of, lemma_index_of_bound, string_of,
};

verus! {

/// One component of a Unix path (`std::path::Component` without prefixes).
pub enum PathComponent {
    Root,
    Cur,
    Parent,
    Normal(Seq<char>),
}

/// The components that one piece between two separators yields.
pub open spec fn piece_components(p: Seq<char>) -> Seq<PathComponent> {
    if p.len() == 0 || p == seq!['.'] {
        seq![]
    } else if p == seq!['.', '.'] {
        seq![PathComponent::Parent]
    } else {
        seq![PathComponent::Normal(p)]
    }
}

/// The components of the text after a root or at the start of a relative
/// path: empty pieces and `.` are skipped, `..` is a parent.
pub open spec fn body_components(s: Seq<char>) -> Seq<PathComponent>
    decreases s.len(),
{
    let k = index_of(s, '/');
    if k >= s.len() {
        piece_components(s)
    } else {
        piece_components(s.subrange(0, k as int)) + body_components(
            s.subrange(k as int + 1, s.len() as int),
        )
    }
}

/// `p` begins at the root.
pub open spec fn is_absolute(p: Seq<char>) -> bool {
    p.len() > 0 && p[0] == '/'
}

/// The components of `s` (`Path::components`): a root when `s` starts with
/// `/`; a current directory only when a relative `s` starts with `.`
/// followed by `/` or by nothing.
pub open spec fn components(s: Seq<char>) -> Seq<PathComponent> {
    if is_absolute(s) {
        seq![PathComponent::Root] + body_components(s.drop_first())
    } else if s.len() > 0 && s[0] == '.' && (s.len() == 1 || s[1] == '/') {
        seq![PathComponent::Cur] + body_components(s.drop_first())
    } else {
        body_components(s)
    }
}

/// `base` joined with `p` (`Path::join` on Unix): an absolute `p` replaces
/// `base`; otherwise a separator is put between them where `base` is not
/// empty and does not end with one.
pub open spec fn join_path(base: Seq<char>, p: Seq<char>) -> Seq<char> {
    if is_absolute(p) {
        p
    } else if base.len() > 0 && base.last() != '/' {
        base + seq!['/'] + p
    } else {
        base + p
    }
}

/// The components of `base` are the first components of `p`
/// (`Path::starts_with`).
pub open spec fn path_starts_with(p: Seq<char>, base: Seq<char>) -> bool {
    let a = components(p);
    let b = components(base);
    b.len() <= a.len() && a.subrange(0, b.len() as int) == b
}

/// A path being built by `PathBuf::push` and `PathBuf::pop`: whether it is
/// rooted, and its names.
pub open spec fn norm_push(st: (bool, Seq<Seq<char>>), c: PathComponent) -> (
    bool,
    Seq<Seq<char>>,
) {
    match c {
        PathComponent::Root => (true, seq![]),
        PathComponent::Cur => st,
        PathComponent::Parent => if st.1.len() > 0 {
            (st.0, st.1.drop_last())
        } else {
            st
        },
        PathComponent::Normal(n) => (st.0, st.1.push(n)),
    }
}

/// The state after pushing each of `cs` onto an empty path, a parent popping
/// the last name.
pub open spec fn norm_fold(cs: Seq<PathComponent>) -> (bool, Seq<Seq<char>>)
    decreases cs.len(),
{
    if cs.len() == 0 {
        (false, seq![])
    } else {
        norm_push(norm_fold(cs.drop_last()), cs.last())
    }
}

/// The text of a path that is rooted or not and has the names `segs`.
pub open spec fn render(abs: bool, segs: Seq<Seq<char>>) -> Seq<char> {
    (if abs {
        seq!['/']
    } else {
        seq![]
    }) + join(segs, seq!['/'])
}

/// `s` with `.` components dropped and each `..` removing the name before
/// it, lexically and without touching the file system.
pub open spec fn normalize(s: Seq<char>) -> Seq<char> {
    let st = norm_fold(components(s));
    render(st.0, st.1)
}

/// One path component, with its name where it has one.
pub enum Component {
    RootDir,
    CurDir,
    ParentDir,
    Normal(Vec<char>),
}

impl View for Component {
    type V = PathComponent;

    open spec fn view(&self) -> PathComponent {
        match self {
            Component::RootDir => PathComponent::Root,
            Component::CurDir => PathComponent::Cur,
            Component::ParentDir => PathComponent::Parent,
            Component::Normal(n) => PathComponent::Normal(n@),
        }
    }
}

/// The components that each exec component stands for.
pub open spec fn component_views(v: Seq<Component>) -> Seq<PathComponent> {
    v.map_values(|c: Component| c@)
}

fn is_single_dot(p: &Vec<char>) -> (b: bool)
    ensures
        b == (p@ == seq!['.']),
{
    if p.len() == 1 && p[0] == '.' {
        assert(p@ =~= seq!['.']);
        true
    } else {
        false
    }
}

fn is_double_dot(p: &Vec<char>) -> (b: bool)
    ensures
        b == (p@ == seq!['.', '.']),
{
    if p.len() == 2 && p[0] == '.' && p[1] == '.' {
        assert(p@ =~= seq!['.', '.']);
        true
    } else {
        false
    }
}

fn push_piece(out: &mut Vec<Component>, p: Vec<char>)
    ensures
        component_views(final(out)@) == component_views(old(out)@) + piece_components(p@),
{
    if p.len() == 0 || is_single_dot(&p) {
        assert(component_views(out@) + piece_components(p@) =~= component_views(out@));
    } else if is_double_dot(&p) {
        out.push(Component::ParentDir);
        assert(component_views(out@) =~= component_views(old(out)@) + piece_components(p@));
    } else {
        let ghost pv = p@;
        out.push(Component::Normal(p));
        assert(component_views(out@) =~= component_views(old(out)@) + piece_components(pv));
    }
}

/// The components of `v[start..]` read as a body (see `body_components`).
fn body_components_from(v: &Vec<char>, start: usize, out: &mut Vec<Component>)
    requires
        start <= v.len(),
    ensures
        component_views(final(out)@) == component_views(old(out)@) + body_components(
            v@.subrange(start as int, v.len() as int),
        ),
{
    let n = v.len();
    let mut s = start;
    let mut done = false;
    let ghost acc0 = component_views(out@);
    while !done
        invariant
            start <= s <= n,
            n == v.len(),
            !done ==> acc0 + body_components(v@.subrange(start as int, n as int))
                == component_views(out@) + body_components(v@.subrange(s as int, n as int)),
            done ==> acc0 + body_components(v@.subrange(start as int, n as int))
                == component_views(out@),
        decreases (if done { 0int } else { 1int }) + 2 * (n - s),
    {
        let ghost rest = v@.subrange(s as int, n as int);
        let ghost before = component_views(out@);
        let mut i = s;
        while i < n && v[i] != '/'
            invariant
                s <= i <= n == v.len(),
                forall|j: int| s <= j < i ==> v@[j] != '/',
            decreases n - i,
        {
            i += 1;
        }
        proof {
            lemma_index_of(rest, '/', i - s);
        }
        let piece = chars_range(v, s, i);
        assert(rest.subrange(0, i - s) == v@.subrange(s as int, i as int));
        push_piece(out, piece);
        if i == n {
            assert(rest == v@.subrange(s as int, i as int));
            done = true;
        } else {
            assert(rest.subrange(i - s + 1, rest.len() as int) == v@.subrange(i + 1, n as int));
            assert(before + body_components(rest) == component_views(out@) + body_components(
                v@.subrange(i + 1, n as int),
            ));
            s = i + 1;
        }
    }
}

/// `Path::components` on the characters of a path.
pub fn components_of(v: &Vec<char>) -> (r: Vec<Component>)
    ensures
        component_views(r@) == components(v@),
{
    let mut out: Vec<Component> = Vec::new();
    assert(component_views(out@) =~= Seq::<PathComponent>::empty());
    if v.len() > 0 && v[0] == '/' {
        out.push(Component::RootDir);
        body_components_from(v, 1, &mut out);
        assert(v@.subrange(1, v.len() as int) == v@.drop_first());
    } else if v.len() > 0 && v[0] == '.' && (v.len() == 1 || v[1] == '/') {
        out.push(Component::CurDir);
        body_components_from(v, 1, &mut out);
        assert(v@.subrange(1, v.len() as int) == v@.drop_first());
    } else {
        body_components_from(v, 0, &mut out);
        assert(v@.subrange(0, v.len() as int) == v@);
    }
    out
}

fn copy_chars(v: &Vec<char>) -> (r: Vec<char>)
    ensures
        r@ == v@,
{
    let r = chars_range(v, 0, v.len());
    assert(v@.subrange(0, v@.len() as int) == v@);
    r
}

/// The lexical normal form of the path `v` (see `normalize`).
pub fn normalize_chars(v: &Vec<char>) -> (r: Vec<char>)
    ensures
        r@ == normalize(v@),
{
    let comps = components_of(v);
    let ghost cs = component_views(comps@);
    let mut abs = false;
    let mut segs: Vec<Vec<char>> = Vec::new();
    let mut i: usize = 0;
    assert(cs.take(0) =~= Seq::<PathComponent>::empty());
    assert(char_views(segs@) =~= Seq::<Seq<char>>::empty());
    while i < comps.len()
        invariant
            i <= comps.len(),
            cs == component_views(comps@),
            cs == components(v@),
            (abs, char_views(segs@)) == norm_fold(cs.take(i as int)),
        decreases comps.len() - i,
    {
        assert(cs.take(i + 1).drop_last() == cs.take(i as int));
        assert(cs.take(i + 1).last() == comps@[i as int]@);
        match &comps[i] {
            Component::RootDir => {
                abs = true;
                segs = Vec::new();
                assert(char_views(segs@) =~= Seq::<Seq<char>>::empty());
            },
            Component::CurDir => {},
            Component::ParentDir => {
                if segs.len() > 0 {
                    let ghost before = segs@;
                    segs.pop();
                    assert(char_views(segs@) =~= char_views(before).drop_last());
                }
            },
            Component::Normal(n) => {
                let ghost before = segs@;
                segs.push(copy_chars(n));
                assert(char_views(segs@) =~= char_views(before).push(n@));
            },
        }
        i += 1;
    }
    assert(cs.take(comps.len() as int) == cs);
    let mut out: Vec<char> = Vec::new();
    if abs {
        out.push('/');
    }
    let mut sep: Vec<char> = Vec::new();
    sep.push('/');
    let body = join_chars(&segs, &sep);
    append_chars(&mut out, &body);
    assert(sep@ =~= seq!['/']);
    assert(out@ =~= render(abs, char_views(segs@)));
    out
}

/// The lexical normal form of `path`: `.` components dropped and each `..`
/// taking away the name before it (as the workspace guard computes it).
pub fn normalize_path(path: &str) -> (r: String)
    ensures
        r@ == normalize(path@),
{
    string_of(&normalize_chars(&chars_of(path)))
}

/// `Path::join` on Unix.
pub fn join_paths(base: &str, p: &str) -> (r: String)
    ensures
        r@ == join_path(base@, p@),
{
    let vb = chars_of(base);
    let vp = chars_of(p);
    if vp.len() > 0 && vp[0] == '/' {
        return string_of(&vp);
    }
    let mut out = copy_chars(&vb);
    if vb.len() > 0 && vb[vb.len() - 1] != '/' {
        out.push('/');
    }
    append_chars(&mut out, &vp);
    string_of(&out)
}

/// `Path::is_absolute` on Unix.
pub fn is_absolute_path(p: &str) -> (b: bool)
    ensures
        b == is_absolute(p@),
{
    let v = chars_of(p);
    v.len() > 0 && v[0] == '/'
}

fn component_eq(a: &Component, b: &Component) -> (r: bool)
    ensures
        r == (a@ == b@),
{
    match (a, b) {
        (Component::RootDir, Component::RootDir) => true,
        (Component::CurDir, Component::CurDir) => true,
        (Component::ParentDir, Component::ParentDir) => true,
        (Component::Normal(x), Component::Normal(y)) => chars_equal(x, y),
        _ => false,
    }
}

/// `Path::starts_with` on the characters of two paths.
pub fn chars_path_starts_with(p: &Vec<char>, base: &Vec<char>) -> (r: bool)
    ensures
        r == path_starts_with(p@, base@),
{
    let a = components_of(p);
    let b = components_of(base);
    let ghost ca = component_views(a@);
    let ghost cb = component_views(b@);
    if b.len() > a.len() {
        return false;
    }
    let mut i: usize = 0;
    while i < b.len()
        invariant
            i <= b.len() <= a.len(),
            ca == component_views(a@),
            cb == component_views(b@),
            ca == components(p@),
            cb == components(base@),
            forall|j: int| 0 <= j < i ==> ca[j] == cb[j],
        decreases b.len() - i,
    {
        if !component_eq(&a[i], &b[i]) {
            assert(ca[i as int] == a@[i as int]@ && cb[i as int] == b@[i as int]@);
            assert(ca.subrange(0, cb.len() as int)[i as int] != cb[i as int]);
            return false;
        }
        assert(ca[i as int] == a@[i as int]@ && cb[i as int] == b@[i as int]@);
        i += 1;
    }
    assert(ca.subrange(0, cb.len() as int) =~= cb);
    true
}

/// `Path::starts_with`: the components of `base` begin those of `p`.
pub fn path_has_prefix(p: &str, base: &str) -> (r: bool)
    ensures
        r == path_starts_with(p@, base@),
{
    chars_path_starts_with(&chars_of(p), &chars_of(base))
}

/// A name that a `Normal` component can carry: not empty, not `.` or `..`,
/// and without a separator.
pub open spec fn valid_name(n: Seq<char>) -> bool {
    &&& n.len() > 0
    &&& n != seq!['.']
    &&& n != seq!['.', '.']
    &&& forall|i: int| 0 <= i < n.len() ==> n[i] != '/'
}

/// The `Normal` components that carry `names`.
pub open spec fn normals(names: Seq<Seq<char>>) -> Seq<PathComponent> {
    names.map_values(|n: Seq<char>| PathComponent::Normal(n))
}

/// A separator splits the body into the components on either side.
proof fn lemma_body_split(x: Seq<char>, y: Seq<char>)
    ensures
        body_components(x + seq!['/'] + y) == body_components(x) + body_components(y),
    decreases x.len(),
{
    let s = x + seq!['/'] + y;
    lemma_index_of_bound(x, '/');
    let k = index_of(x, '/') as int;
    if k < x.len() {
        assert forall|j: int| 0 <= j < k implies s[j] != '/' by {
            assert(s[j] == x[j]);
        }
        lemma_index_of(s, '/', k);
        assert(s.subrange(0, k) == x.subrange(0, k));
        let xr = x.subrange(k + 1, x.len() as int);
        assert(s.subrange(k + 1, s.len() as int) == xr + seq!['/'] + y);
        lemma_body_split(xr, y);
        assert(body_components(x) == piece_components(x.subrange(0, k)) + body_components(xr));
        assert(body_components(s) == piece_components(x.subrange(0, k)) + body_components(
            xr + seq!['/'] + y,
        ));
        assert(body_components(s) =~= body_components(x) + body_components(y));
    } else {
        assert forall|j: int| 0 <= j < x.len() implies s[j] != '/' by {
            assert(s[j] == x[j]);
        }
        lemma_index_of(s, '/', x.len() as int);
        assert(s.subrange(0, x.len() as int) == x);
        assert(s.subrange(x.len() as int + 1, s.len() as int) == y);
        assert(body_components(x) == piece_components(x));
    }
}

/// Text without a separator is one piece.
proof fn lemma_body_single(y: Seq<char>)
    requires
        forall|i: int| 0 <= i < y.len() ==> y[i] != '/',
    ensures
        body_components(y) == piece_components(y),
{
    lemma_index_of(y, '/', y.len() as int);
}

/// The first name of a join is at its start, followed by a separator
/// where more names come.
proof fn lemma_join_front(segs: Seq<Seq<char>>)
    requires
        segs.len() > 0,
    ensures
        join(segs, seq!['/']).len() >= segs[0].len(),
        join(segs, seq!['/']).subrange(0, segs[0].len() as int) == segs[0],
        segs.len() == 1 ==> join(segs, seq!['/']) == segs[0],
        segs.len() > 1 ==> join(segs, seq!['/']).len() > segs[0].len() && join(segs, seq!['/'])[segs[0].len() as int] == '/',
    decreases segs.len(),
{
    if segs.len() > 1 {
        let init = segs.drop_last();
        lemma_join_front(init);
        let j0 = join(init, seq!['/']);
        let j = join(segs, seq!['/']);
        assert(j == j0 + seq!['/'] + segs.last());
        assert(init[0] == segs[0]);
        assert(j.subrange(0, segs[0].len() as int) == j0.subrange(0, segs[0].len() as int));
        if init.len() == 1 {
            assert(j[segs[0].len() as int] == '/');
        } else {
            assert(j[segs[0].len() as int] == j0[segs[0].len() as int]);
        }
    }
}

/// The body of joined valid names is their `Normal` components.
proof fn lemma_body_of_join(segs: Seq<Seq<char>>)
    requires
        forall|i: int| 0 <= i < segs.len() ==> valid_name(#[trigger] segs[i]),
    ensures
        body_components(join(segs, seq!['/'])) == normals(segs),
    decreases segs.len(),
{
    if segs.len() == 0 {
        assert(body_components(seq![]) == piece_components(seq![])) by {
            lemma_index_of(seq![], '/', 0);
        }
        assert(normals(segs) =~= Seq::<PathComponent>::empty());
    } else {
        let last = segs.last();
        assert(valid_name(last));
        lemma_body_single(last);
        assert(piece_components(last) == seq![PathComponent::Normal(last)]);
        if segs.len() == 1 {
            assert(normals(segs) =~= seq![PathComponent::Normal(last)]);
        } else {
            let init = segs.drop_last();
            assert forall|i: int| 0 <= i < init.len() implies valid_name(#[trigger] init[i]) by {
                assert(init[i] == segs[i]);
            }
            lemma_body_of_join(init);
            lemma_body_split(join(init, seq!['/']), last);
            assert(normals(segs) =~= normals(init) + seq![PathComponent::Normal(last)]);
        }
    }
}

/// The components of a rendered path are its root, where it has one, and
/// its names.
pub proof fn lemma_components_of_render(abs: bool, segs: Seq<Seq<char>>)
    requires
        forall|i: int| 0 <= i < segs.len() ==> valid_name(#[trigger] segs[i]),
    ensures
        components(render(abs, segs)) == (if abs {
            seq![PathComponent::Root]
        } else {
            seq![]
        }) + normals(segs),
{
    let j = join(segs, seq!['/']);
    lemma_body_of_join(segs);
    if abs {
        assert(render(abs, segs) == seq!['/'] + j);
        assert((seq!['/'] + j).drop_first() == j);
    } else {
        assert(render(abs, segs) == j);
        if segs.len() == 0 {
            assert(j.len() == 0);
            assert(normals(segs) =~= Seq::<PathComponent>::empty());
        } else {
            lemma_join_front(segs);
            let n0 = segs[0];
            assert(valid_name(n0));
            assert(j[0] == n0[0]);
            if j[0] == '.' && (j.len() == 1 || j[1] == '/') {
                if n0.len() == 1 {
                    assert(n0 =~= seq!['.']);
                } else {
                    assert(j[1] == n0[1]);
                }
            }
        }
    }
}

/// Pushing names onto a path appends them.
pub proof fn lemma_fold_normals(cs: Seq<PathComponent>, names: Seq<Seq<char>>)
    ensures
        norm_fold(cs + normals(names)) == (norm_fold(cs).0, norm_fold(cs).1 + names),
    decreases names.len(),
{
    if names.len() == 0 {
        assert(cs + normals(names) =~= cs);
        assert(norm_fold(cs).1 + names =~= norm_fold(cs).1);
    } else {
        let init = names.drop_last();
        lemma_fold_normals(cs, init);
        assert((cs + normals(names)).drop_last() =~= cs + normals(init));
        assert((cs + normals(names)).last() == PathComponent::Normal(names.last()));
        assert(norm_fold(cs).1 + init + seq![names.last()] =~= norm_fold(cs).1 + names);
    }
}

/// Every name a body yields is valid, and it yields no root.
pub proof fn lemma_body_names(s: Seq<char>)
    ensures
        forall|i: int|
            0 <= i < body_components(s).len() ==> match #[trigger] body_components(s)[i] {
                PathComponent::Normal(n) => valid_name(n),
                PathComponent::Root => false,
                _ => true,
            },
    decreases s.len(),
{
    lemma_index_of_bound(s, '/');
    let k = index_of(s, '/') as int;
    let p = if k >= s.len() {
        s
    } else {
        s.subrange(0, k)
    };
    assert forall|i: int| 0 <= i < p.len() implies p[i] != '/' by {
        if k < s.len() {
            assert(p[i] == s[i]);
        }
    }
    if k < s.len() {
        let rest = s.subrange(k + 1, s.len() as int);
        lemma_body_names(rest);
        let pc = piece_components(p);
        assert forall|i: int|
            0 <= i < body_components(s).len() implies match #[trigger] body_components(s)[i] {
            PathComponent::Normal(n) => valid_name(n),
            PathComponent::Root => false,
            _ => true,
        } by {
            if i >= pc.len() {
                assert(body_components(s)[i] == body_components(rest)[i - pc.len()]);
            }
        }
    }
}

/// The names of a path being built are valid when the names pushed are.
proof fn lemma_fold_names(cs: Seq<PathComponent>)
    requires
        forall|i: int|
            0 <= i < cs.len() ==> match #[trigger] cs[i] {
                PathComponent::Normal(n) => valid_name(n),
                _ => true,
            },
    ensures
        forall|i: int| 0 <= i < norm_fold(cs).1.len() ==> valid_name(#[trigger] norm_fold(cs).1[i]),
    decreases cs.len(),
{
    if cs.len() > 0 {
        let init = cs.drop_last();
        assert forall|i: int| 0 <= i < init.len() implies match #[trigger] init[i] {
            PathComponent::Normal(n) => valid_name(n),
            _ => true,
        } by {
            assert(init[i] == cs[i]);
        }
        lemma_fold_names(init);
        let st = norm_fold(init);
        let c = cs.last();
        assert(match c {
            PathComponent::Normal(n) => valid_name(n),
            _ => true,
        });
        assert forall|i: int| 0 <= i < norm_fold(cs).1.len() implies valid_name(
            #[trigger] norm_fold(cs).1[i],
        ) by {
            match c {
                PathComponent::Normal(n) => {
                    if i < st.1.len() {
                        assert(norm_fold(cs).1[i] == st.1[i]);
                    }
                },
                PathComponent::Parent => {
                    if st.1.len() > 0 {
                        assert(norm_fold(cs).1[i] == st.1[i]);
                    }
                },
                _ => {},
            }
        }
    }
}

/// Every name in the components of a path is valid.
proof fn lemma_components_names(s: Seq<char>)
    ensures
        forall|i: int|
            0 <= i < components(s).len() ==> match #[trigger] components(s)[i] {
                PathComponent::Normal(n) => valid_name(n),
                _ => true,
            },
{
    let b = if is_absolute(s) || (s.len() > 0 && s[0] == '.' && (s.len() == 1 || s[1] == '/')) {
        s.drop_first()
    } else {
        s
    };
    lemma_body_names(b);
    assert forall|i: int| 0 <= i < components(s).len() implies match #[trigger] components(s)[i] {
        PathComponent::Normal(n) => valid_name(n),
        _ => true,
    } by {
        if is_absolute(s) || (s.len() > 0 && s[0] == '.' && (s.len() == 1 || s[1] == '/')) {
            if i > 0 {
                assert(components(s)[i] == body_components(b)[i - 1]);
            }
        } else {
            assert(components(s)[i] == body_components(b)[i]);
        }
    }
}

/// The names of a normalized path are valid.
pub proof fn lemma_normal_names(s: Seq<char>)
    ensures
        forall|i: int|
            0 <= i < norm_fold(components(s)).1.len() ==> valid_name(
                #[trigger] norm_fold(components(s)).1[i],
            ),
{
    lemma_components_names(s);
    lemma_fold_names(components(s));
}

/// Normalizing a normalized path changes nothing.
pub proof fn lemma_normalize_idempotent(s: Seq<char>)
    ensures
        normalize(normalize(s)) == normalize(s),
{
    let st = norm_fold(components(s));
    lemma_normal_names(s);
    lemma_components_of_render(st.0, st.1);
    if st.0 {
        lemma_fold_normals(seq![PathComponent::Root], st.1);
        assert(norm_fold(seq![PathComponent::Root]) == (true, Seq::<Seq<char>>::empty())) by {
            assert(seq![PathComponent::Root].drop_last() =~= Seq::<PathComponent>::empty());
        }
        assert(Seq::<Seq<char>>::empty() + st.1 =~= st.1);
    } else {
        lemma_fold_normals(seq![], st.1);
        assert(seq![] + normals(st.1) =~= normals(st.1));
        assert(Seq::<Seq<char>>::empty() + st.1 =~= st.1);
    }
}

/// A path in normal form that starts at the root: its components are the
/// root and its valid names, and it ends with a separator only when it is
/// the root alone.
pub proof fn lemma_canonical_root(root: Seq<char>)
    requires
        is_absolute(root),
        normalize(root) == root,
    ensures
        norm_fold(components(root)).0,
        components(root) == seq![PathComponent::Root] + normals(norm_fold(components(root)).1),
        forall|i: int|
            0 <= i < norm_fold(components(root)).1.len() ==> valid_name(
                #[trigger] norm_fold(components(root)).1[i],
            ),
        root.last() == '/' ==> norm_fold(components(root)).1.len() == 0,
{
    let st = norm_fold(components(root));
    lemma_normal_names(root);
    let j = join(st.1, seq!['/']);
    if !st.0 {
        assert(root == j);
        if st.1.len() > 0 {
            lemma_join_front(st.1);
            assert(valid_name(st.1[0]));
            assert(j[0] == st.1[0][0]);
        }
        assert(false);
    }
    lemma_components_of_render(true, st.1);
    if st.1.len() > 0 {
        let last = st.1.last();
        assert(valid_name(last));
        if st.1.len() == 1 {
            assert(j == st.1[0]);
        } else {
            assert(j == join(st.1.drop_last(), seq!['/']) + seq!['/'] + last);
        }
        assert(j.last() == last.last());
        assert(root.last() == j.last());
    }
}

/// Joined to a canonical root, a relative path adds its body's components.
pub proof fn lemma_join_relative(root: Seq<char>, c: Seq<char>)
    requires
        is_absolute(root),
        normalize(root) == root,
        !is_absolute(c),
    ensures
        components(join_path(root, c)) == components(root) + body_components(c),
{
    lemma_canonical_root(root);
    let rs = norm_fold(components(root)).1;
    if root.last() != '/' {
        let joined = root + seq!['/'] + c;
        assert(join_path(root, c) == joined);
        assert(joined.drop_first() == root.drop_first() + seq!['/'] + c);
        lemma_body_split(root.drop_first(), c);
    } else {
        assert(rs.len() == 0);
        assert(root == render(true, rs));
        assert(join(rs, seq!['/']) == Seq::<char>::empty());
        assert(root =~= seq!['/']);
        assert(join_path(root, c) == root + c);
        assert((root + c).drop_first() =~= c);
        assert(components(root) =~= seq![PathComponent::Root] + body_components(root.drop_first()));
        assert(root.drop_first() =~= Seq::<char>::empty());
        lemma_body_single(Seq::<char>::empty());
        assert(piece_components(Seq::<char>::empty()) =~= Seq::<PathComponent>::empty());
    }
}

/// The components of a relative path are those of its body, after a `.`
/// that it may start with.
pub proof fn lemma_relative_body(c: Seq<char>)
    requires
        !is_absolute(c),
    ensures
        components(c) == body_components(c) || components(c) == seq![PathComponent::Cur]
            + body_components(c),
{
    if c.len() > 0 && c[0] == '.' && (c.len() == 1 || c[1] == '/') {
        if c.len() == 1 {
            assert(c =~= seq!['.']);
            lemma_body_single(c);
            lemma_body_single(c.drop_first());
            assert(piece_components(Seq::<char>::empty()) =~= Seq::<PathComponent>::empty());
        } else {
            lemma_index_of(c, '/', 1);
            assert(c.subrange(0, 1) =~= seq!['.']);
            let rest = c.subrange(2, c.len() as int);
            let d = c.drop_first();
            lemma_index_of(d, '/', 0);
            assert(d.subrange(0, 0) =~= Seq::<char>::empty());
            assert(d.subrange(1, d.len() as int) =~= rest);
            assert(piece_components(Seq::<char>::empty()) =~= Seq::<PathComponent>::empty());
            assert(body_components(c) =~= body_components(rest));
            assert(body_components(d) =~= body_components(rest));
        }
    }
}

/// Pushing components without a root or a parent keeps what was built and
/// adds to it.
pub proof fn lemma_fold_extends(cs1: Seq<PathComponent>, cs2: Seq<PathComponent>)
    requires
        forall|i: int|
            0 <= i < cs2.len() ==> !(#[trigger] cs2[i] is Parent) && !(cs2[i] is Root),
    ensures
        norm_fold(cs1 + cs2).0 == norm_fold(cs1).0,
        norm_fold(cs1 + cs2).1.len() >= norm_fold(cs1).1.len(),
        norm_fold(cs1 + cs2).1.subrange(0, norm_fold(cs1).1.len() as int) == norm_fold(cs1).1,
    decreases cs2.len(),
{
    if cs2.len() == 0 {
        assert(cs1 + cs2 =~= cs1);
    } else {
        let init = cs2.drop_last();
        assert forall|i: int| 0 <= i < init.len() implies !(#[trigger] init[i] is Parent) && !(
        init[i] is Root) by {
            assert(init[i] == cs2[i]);
        }
        lemma_fold_extends(cs1, init);
        assert((cs1 + cs2).drop_last() =~= cs1 + init);
        assert((cs1 + cs2).last() == cs2.last());
        let st = norm_fold(cs1 + init);
        let n = norm_fold(cs1).1.len() as int;
        match cs2.last() {
            PathComponent::Normal(x) => {
                assert(st.1.push(x).subrange(0, n) =~= st.1.subrange(0, n));
            },
            _ => {},
        }
    }
}

/// A normalized path has no `.` or `..` component: only a root, where it
/// has one, and names.
pub proof fn lemma_normalized_has_no_dots(s: Seq<char>)
    ensures
        forall|i: int|
            0 <= i < components(normalize(s)).len() ==> !(#[trigger] components(normalize(s))[i] is Cur)
                && !(components(normalize(s))[i] is Parent),
{
    let st = norm_fold(components(s));
    lemma_normal_names(s);
    lemma_components_of_render(st.0, st.1);
    let cs = components(normalize(s));
    assert forall|i: int| 0 <= i < cs.len() implies !(#[trigger] cs[i] is Cur) && !(cs[i] is Parent) by {
        if st.0 {
            if i > 0 {
                assert(cs[i] == PathComponent::Normal(st.1[i - 1]));
            }
        } else {
            assert(cs[i] == PathComponent::Normal(st.1[i]));
        }
    }
}

/// `s` without its trailing separators and trailing `.` components, which
/// `Path::file_name` looks past.
pub open spec fn strip_tail(s: Seq<char>) -> Seq<char>
    decreases s.len(),
{
    if s.len() > 0 && s.last() == '/' {
        strip_tail(s.drop_last())
    } else if s.len() >= 2 && s.last() == '.' && s[s.len() - 2] == '/' {
        strip_tail(s.drop_last())
    } else {
        s
    }
}

/// Where the last piece of `t` starts: just after its last separator.
pub open spec fn name_start(t: Seq<char>) -> nat
    decreases t.len(),
{
    if t.len() == 0 {
        0
    } else if t.last() == '/' {
        t.len()
    } else {
        name_start(t.drop_last())
    }
}

/// The position of the last `.` in `n`, or -1 where there is none.
pub open spec fn last_dot(n: Seq<char>) -> int
    decreases n.len(),
{
    if n.len() == 0 {
        -1
    } else if n.last() == '.' {
        n.len() - 1
    } else {
        last_dot(n.drop_last())
    }
}

/// The length of the stem of the file name `n` (`Path::file_stem`): up to
/// its last `.`, unless there is none or it is the first character.
pub open spec fn stem_len(n: Seq<char>) -> int {
    if last_dot(n) <= 0 {
        n.len() as int
    } else {
        last_dot(n)
    }
}

/// `Path::with_extension` on Unix: where the path has a file name, the path
/// up to the end of the file name's stem, then `.` and `extension` unless
/// it is empty; otherwise the path unchanged. The old extension is cut off
/// first: where the path ends in a name whose stem is `.` (such as `..a`),
/// that leaves the path ending in `..`, which has no file name, and the
/// path stays so.
pub open spec fn with_extension(path: Seq<char>, extension: Seq<char>) -> Seq<char> {
    let t = strip_tail(path);
    let k = name_start(t) as int;
    let name = t.subrange(k, t.len() as int);
    if name.len() == 0 || name == seq!['.'] || name == seq!['.', '.'] {
        path
    } else if t.len() == path.len() && stem_len(name) == 1 && name[0] == '.' {
        path.subrange(0, k + 2)
    } else {
        t.subrange(0, k + stem_len(name)) + (if extension.len() > 0 {
            seq!['.'] + extension
        } else {
            seq![]
        })
    }
}

fn strip_tail_len(v: &Vec<char>) -> (b: usize)
    ensures
        b <= v.len(),
        strip_tail(v@) == v@.subrange(0, b as int),
{
    let n = v.len();
    let mut b = n;
    assert(v@.subrange(0, n as int) == v@);
    while (b > 0 && v[b - 1] == '/') || (b >= 2 && v[b - 1] == '.' && v[b - 2] == '/')
        invariant
            b <= n == v.len(),
            strip_tail(v@) == strip_tail(v@.subrange(0, b as int)),
        decreases b,
    {
        assert(v@.subrange(0, b as int).drop_last() == v@.subrange(0, b - 1));
        b -= 1;
    }
    b
}

fn name_start_in(v: &Vec<char>, b: usize) -> (k: usize)
    requires
        b <= v.len(),
    ensures
        k <= b,
        name_start(v@.subrange(0, b as int)) == k,
{
    let ghost t = v@.subrange(0, b as int);
    let mut k = b;
    assert(t.subrange(0, b as int) == t);
    while k > 0 && v[k - 1] != '/'
        invariant
            k <= b <= v.len(),
            t == v@.subrange(0, b as int),
            name_start(t) == name_start(t.subrange(0, k as int)),
        decreases k,
    {
        assert(t.subrange(0, k as int).drop_last() == t.subrange(0, k - 1));
        k -= 1;
    }
    k
}

fn stem_len_in(v: &Vec<char>, k: usize, b: usize) -> (r: usize)
    requires
        k <= b <= v.len(),
    ensures
        r == stem_len(v@.subrange(k as int, b as int)),
        r <= b - k,
{
    let ghost name = v@.subrange(k as int, b as int);
    let mut j = b;
    assert(name.subrange(0, name.len() as int) == name);
    while j > k && v[j - 1] != '.'
        invariant
            k <= j <= b <= v.len(),
            name == v@.subrange(k as int, b as int),
            last_dot(name) == last_dot(name.subrange(0, j - k)),
        decreases j,
    {
        assert(name.subrange(0, j - k).drop_last() == name.subrange(0, j - k - 1));
        j -= 1;
    }
    if j - k <= 1 {
        b - k
    } else {
        j - 1 - k
    }
}

fn is_special_name(v: &Vec<char>, k: usize, b: usize) -> (r: bool)
    requires
        k <= b <= v.len(),
    ensures
        r == ({
            let name = v@.subrange(k as int, b as int);
            name.len() == 0 || name == seq!['.'] || name == seq!['.', '.']
        }),
{
    let ghost name = v@.subrange(k as int, b as int);
    let n = b - k;
    if n == 0 {
        return true;
    }
    if n == 1 {
        assert(name[0] == v@[k as int]);
        if v[k] == '.' {
            assert(name =~= seq!['.']);
            return true;
        }
        return false;
    }
    if n == 2 {
        assert(name[0] == v@[k as int] && name[1] == v@[k + 1]);
        if v[k] == '.' && v[k + 1] == '.' {
            assert(name =~= seq!['.', '.']);
            return true;
        }
        return false;
    }
    false
}

/// `Path::with_extension` on Unix, for an extension without a separator.
pub fn path_with_extension(path: &str, extension: &str) -> (r: String)
    requires
        forall|i: int| 0 <= i < extension@.len() ==> extension@[i] != '/',
    ensures
        r@ == with_extension(path@, extension@),
{
    let v = chars_of(path);
    let b = strip_tail_len(&v);
    let k = name_start_in(&v, b);
    assert(v@.subrange(0, b as int).subrange(k as int, b as int) == v@.subrange(k as int, b as int));
    if is_special_name(&v, k, b) {
        return string_of(&v);
    }
    let stem = stem_len_in(&v, k, b);
    if b == v.len() && stem == 1 && v[k] == '.' {
        proof {
            let name = v@.subrange(k as int, b as int);
            assert(name[0] == v@[k as int]);
            if b - k < 2 {
                assert(name =~= seq!['.']);
            }
            assert(v@.subrange(0, b as int) == v@);
        }
        return string_of(&chars_range(&v, 0, k + 2));
    }
    let mut out = chars_range(&v, 0, k + stem);
    let ext = chars_of(extension);
    if ext.len() > 0 {
        out.push('.');
        append_chars(&mut out, &ext);
    }
    proof {
        let t = v@.subrange(0, b as int);
        assert(t.subrange(k as int, t.len() as int) == v@.subrange(k as int, b as int));
        assert(t.subrange(0, k + stem) == v@.subrange(0, k + stem));
    }
    assert(out@ =~= with_extension(path@, extension@));
    string_of(&out)
}

} // verus!
