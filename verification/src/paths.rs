//! Unix paths as text. A path is read as its components (`Path::components`):
//! an optional root, then the segments between `/`, where empty segments and
//! `.` are dropped and `..` is a parent step. (`Path::components` yields a
//! leading `.` of a relative path as `CurDir`; every function here skips
//! `CurDir`, so the model leaves it out.)
use vstd::prelude::*;
use crate::text::{first_index_of, sub_vec};

verus! {

broadcast use vstd::seq_lib::group_seq_properties;


/// A path component.
pub enum Comp {
    Root,
    Parent,
    Normal(Seq<char>),
}

/// A path component, as held by executable code.
pub enum PathComp {
    Root,
    Parent,
    Normal(Vec<char>),
}

impl PathComp {
    pub open spec fn view(&self) -> Comp {
        match self {
            PathComp::Root => Comp::Root,
            PathComp::Parent => Comp::Parent,
            PathComp::Normal(v) => Comp::Normal(v@),
        }
    }
}

pub open spec fn comps_view(v: Seq<PathComp>) -> Seq<Comp> {
    v.map_values(|c: PathComp| c.view())
}

/// The text between separators, `s` split at every `/`.
#[verifier::opaque]
pub open spec fn segments(s: Seq<char>) -> Seq<Seq<char>>
    decreases s.len(),
{
    match first_index_of(s, '/') {
        Some(i) => if 0 <= i < s.len() {
            seq![s.take(i)] + segments(s.skip(i + 1))
        } else {
            seq![]
        },
        None => seq![s],
    }
}

/// The component that a segment stands for, if any.
pub open spec fn seg_comps(seg: Seq<char>) -> Seq<Comp> {
    if seg.len() == 0 || seg == seq!['.'] {
        seq![]
    } else if seg == seq!['.', '.'] {
        seq![Comp::Parent]
    } else {
        seq![Comp::Normal(seg)]
    }
}

#[verifier::opaque]
pub open spec fn segs_comps(segs: Seq<Seq<char>>) -> Seq<Comp>
    decreases segs.len(),
{
    if segs.len() == 0 {
        seq![]
    } else {
        seg_comps(segs[0]) + segs_comps(segs.drop_first())
    }
}

/// `Path::components`, with `CurDir` left out.
pub open spec fn components(s: Seq<char>) -> Seq<Comp> {
    if s.len() > 0 && s[0] == '/' {
        seq![Comp::Root] + segs_comps(segments(s.drop_first()))
    } else {
        segs_comps(segments(s))
    }
}

/// `Path::is_absolute` on Unix: the path has a root.
pub open spec fn is_absolute(s: Seq<char>) -> bool {
    s.len() > 0 && s[0] == '/'
}

/// `PathBuf::pop` succeeds: the last component is not the root.
pub open spec fn can_pop(out: Seq<Comp>) -> bool {
    out.len() > 0 && !(out.last() is Root)
}

/// One step of lexical normalisation: `..` removes the last component when
/// there is one to remove; with `keep_parent`, a `..` that removes nothing
/// is kept (as `normalize_path` does), else it is dropped (as
/// `lexical_normalize` does).
pub open spec fn norm_step(out: Seq<Comp>, c: Comp, keep_parent: bool) -> Seq<Comp> {
    match c {
        Comp::Parent => if can_pop(out) {
            out.drop_last()
        } else if keep_parent {
            out.push(Comp::Parent)
        } else {
            out
        },
        Comp::Root => seq![Comp::Root],
        Comp::Normal(n) => out.push(Comp::Normal(n)),
    }
}

#[verifier::opaque]
pub open spec fn norm_from(out: Seq<Comp>, cs: Seq<Comp>, keep_parent: bool) -> Seq<Comp>
    decreases cs.len(),
{
    if cs.len() == 0 {
        out
    } else {
        norm_from(norm_step(out, cs[0], keep_parent), cs.drop_first(), keep_parent)
    }
}

/// The components of a path after lexical normalisation.
pub open spec fn normalized(s: Seq<char>, keep_parent: bool) -> Seq<Comp> {
    norm_from(seq![], components(s), keep_parent)
}

/// The text of a path made of the given components (`PathBuf::push` of
/// each in turn).
pub open spec fn render(cs: Seq<Comp>) -> Seq<char> {
    if cs.len() > 0 && cs[0] is Root {
        seq!['/'] + join_comps(cs.drop_first())
    } else {
        join_comps(cs)
    }
}

pub open spec fn comp_text(c: Comp) -> Seq<char> {
    match c {
        Comp::Root => seq!['/'],
        Comp::Parent => seq!['.', '.'],
        Comp::Normal(n) => n,
    }
}

#[verifier::opaque]
pub open spec fn join_comps(cs: Seq<Comp>) -> Seq<char>
    decreases cs.len(),
{
    if cs.len() == 0 {
        seq![]
    } else if cs.len() == 1 {
        comp_text(cs[0])
    } else {
        join_comps(cs.drop_last()) + seq!['/'] + comp_text(cs.last())
    }
}

/// Whether `p` is a prefix of `c`, component by component.
pub open spec fn comps_prefix(p: Seq<Comp>, c: Seq<Comp>) -> bool {
    p.len() <= c.len() && c.take(p.len() as int) == p
}

// ---------------------------------------------------------------------------

proof fn lemma_segs_comps_cons(segs: Seq<Seq<char>>)
    ensures
        segs.len() > 0 ==> segs_comps(segs) == seg_comps(segs[0]) + segs_comps(segs.drop_first()),
        segs.len() == 0 ==> segs_comps(segs) == Seq::<Comp>::empty(),
{
    reveal(segs_comps);
}

proof fn lemma_segments_step(s: Seq<char>, i: int, j: int)
    requires
        0 <= i <= j <= s.len(),
        forall|k: int| i <= k < j ==> s[k] != '/',
        j < s.len() ==> s[j] == '/',
    ensures
        j < s.len() ==> segments(s.skip(i)) == seq![s.subrange(i, j)] + segments(s.skip(j + 1)),
        j == s.len() ==> segments(s.skip(i)) == seq![s.subrange(i, j)],
{
    reveal(segments);
    let rest = s.skip(i);
    if j < s.len() {
        assert(rest[j - i] == '/');
        let fi = first_index_of(rest, '/');
        assert(fi is Some);
        let k = fi->Some_0;
        if k < j - i {
            assert(rest[k] == s[i + k]);
        }
        if k > j - i {
            assert(rest[j - i] == '/');
        }
        assert(k == j - i);
        assert(rest.skip(k + 1) =~= s.skip(j + 1));
        assert(rest.take(k) =~= s.subrange(i, j));
    } else {
        assert forall|m: int| 0 <= m < rest.len() implies rest[m] != '/' by {
            assert(rest[m] == s[i + m]);
        }
        assert(first_index_of(rest, '/') is None);
        assert(rest =~= s.subrange(i, j));
    }
}

/// The component for one segment, if it stands for one.
fn seg_comp(seg: Vec<char>) -> (r: Option<PathComp>)
    ensures
        seg_comps(seg@) == match r {
            Some(c) => seq![c.view()],
            None => Seq::<Comp>::empty(),
        },
{
    if seg.len() == 0 {
        return None;
    }
    if seg.len() == 1 && seg[0] == '.' {
        assert(seg@ =~= seq!['.']);
        return None;
    }
    if seg.len() == 2 && seg[0] == '.' && seg[1] == '.' {
        assert(seg@ =~= seq!['.', '.']);
        return Some(PathComp::Parent);
    }
    proof {
        if seg@ =~= seq!['.'] {
            assert(seg@[0] == '.');
        }
        if seg@ =~= seq!['.', '.'] {
            assert(seg@[0] == '.' && seg@[1] == '.');
        }
    }
    Some(PathComp::Normal(seg))
}

/// Splits a path into its components (without `CurDir`).
pub fn path_components(s: &[char]) -> (r: Vec<PathComp>)
    ensures
        comps_view(r@) == components(s@),
{
    let n = s.len();
    let mut out: Vec<PathComp> = Vec::new();
    let mut i: usize = 0;
    if n > 0 && s[0] == '/' {
        out.push(PathComp::Root);
        i = 1;
        assert(s@.skip(1) =~= s@.drop_first());
    } else {
        assert(s@.skip(0) =~= s@);
    }
    assert(comps_view(out@) + segs_comps(segments(s@.skip(i as int))) =~= components(s@));
    loop
        invariant
            i <= n == s@.len(),
            components(s@) == comps_view(out@) + segs_comps(segments(s@.skip(i as int))),
        decreases n - i,
    {
        let mut j = i;
        while j < n && s[j] != '/'
            invariant
                i <= j <= n == s@.len(),
                forall|k: int| i <= k < j ==> s@[k] != '/',
            decreases n - j,
        {
            j = j + 1;
        }
        proof {
            lemma_segments_step(s@, i as int, j as int);
        }
        let seg = sub_vec(s, i, j);
        let ghost before = out@;
        let ghost sc = seg_comps(seg@);
        match seg_comp(seg) {
            Some(c) => out.push(c),
            None => {},
        }
        assert(comps_view(out@) =~= comps_view(before) + sc);
        if j >= n {
            proof {
                let segs = segments(s@.skip(i as int));
                assert(segs.drop_first() =~= Seq::<Seq<char>>::empty());
                lemma_segs_comps_cons(segs);
                lemma_segs_comps_cons(segs.drop_first());
                assert(segs_comps(segs) =~= sc);
            }
            return out;
        }
        proof {
            let segs = segments(s@.skip(i as int));
            assert(segs.drop_first() =~= segments(s@.skip(j + 1)));
            lemma_segs_comps_cons(segs);
            assert(segs_comps(segs) == sc + segs_comps(segments(s@.skip(j + 1))));
        }
        i = j + 1;
    }
}


proof fn lemma_norm_from_cons(out: Seq<Comp>, cs: Seq<Comp>, keep_parent: bool)
    ensures
        cs.len() > 0 ==> norm_from(out, cs, keep_parent) == norm_from(
            norm_step(out, cs[0], keep_parent),
            cs.drop_first(),
            keep_parent,
        ),
        cs.len() == 0 ==> norm_from(out, cs, keep_parent) == out,
{
    reveal(norm_from);
}

proof fn lemma_join_comps_snoc(cs: Seq<Comp>)
    ensures
        cs.len() == 0 ==> join_comps(cs) == Seq::<char>::empty(),
        cs.len() == 1 ==> join_comps(cs) == comp_text(cs[0]),
        cs.len() > 1 ==> join_comps(cs) == join_comps(cs.drop_last()) + seq!['/'] + comp_text(
            cs.last(),
        ),
{
    reveal(join_comps);
}

/// Lexical normalisation of a component list.
pub fn normalize_comps(cs: &Vec<PathComp>, keep_parent: bool) -> (r: Vec<PathComp>)
    ensures
        comps_view(r@) == norm_from(seq![], comps_view(cs@), keep_parent),
{
    let mut out: Vec<PathComp> = Vec::new();
    let mut i: usize = 0;
    assert(comps_view(cs@).skip(0) =~= comps_view(cs@));
    assert(comps_view(out@) =~= Seq::<Comp>::empty());
    while i < cs.len()
        invariant
            i <= cs@.len(),
            norm_from(seq![], comps_view(cs@), keep_parent) == norm_from(
                comps_view(out@),
                comps_view(cs@).skip(i as int),
                keep_parent,
            ),
        decreases cs.len() - i,
    {
        let ghost before = comps_view(out@);
        let ghost rest = comps_view(cs@).skip(i as int);
        proof {
            lemma_norm_from_cons(before, rest, keep_parent);
            assert(rest[0] == cs@[i as int].view());
            assert(rest.drop_first() =~= comps_view(cs@).skip(i + 1));
        }
        match &cs[i] {
            PathComp::Parent => {
                let n = out.len();
                let poppable = n > 0 && !matches!(out[n - 1], PathComp::Root);
                if poppable {
                    out.pop();
                    assert(comps_view(out@) =~= before.drop_last());
                } else if keep_parent {
                    out.push(PathComp::Parent);
                    assert(comps_view(out@) =~= before.push(Comp::Parent));
                }
            },
            PathComp::Root => {
                out = Vec::new();
                out.push(PathComp::Root);
                assert(comps_view(out@) =~= seq![Comp::Root]);
            },
            PathComp::Normal(v) => {
                out.push(PathComp::Normal(sub_vec(v, 0, v.len())));
                assert(comps_view(out@) =~= before.push(cs@[i as int].view()));
            },
        }
        i = i + 1;
    }
    proof {
        lemma_norm_from_cons(comps_view(out@), comps_view(cs@).skip(i as int), keep_parent);
    }
    out
}

/// The text of a component.
fn push_comp_text(out: &mut Vec<char>, c: &PathComp)
    ensures
        final(out)@ == old(out)@ + comp_text(c.view()),
{
    match c {
        PathComp::Root => {
            out.push('/');
        },
        PathComp::Parent => {
            out.push('.');
            out.push('.');
        },
        PathComp::Normal(v) => {
            crate::text::append_chars(out, v);
        },
    }
}

/// Joins components with `/` (`join_comps`).
fn join_comps_exec(cs: &Vec<PathComp>, lo: usize) -> (r: Vec<char>)
    requires
        lo <= cs@.len(),
    ensures
        r@ == join_comps(comps_view(cs@).skip(lo as int)),
{
    let mut out: Vec<char> = Vec::new();
    let mut i = lo;
    proof {
        assert(comps_view(cs@).skip(lo as int).take(0) =~= Seq::<Comp>::empty());
        lemma_join_comps_snoc(Seq::<Comp>::empty());
    }
    while i < cs.len()
        invariant
            lo <= i <= cs@.len(),
            out@ == join_comps(comps_view(cs@).skip(lo as int).take(i - lo)),
        decreases cs.len() - i,
    {
        let ghost all = comps_view(cs@).skip(lo as int);
        let ghost pre = all.take(i - lo + 1);
        proof {
            lemma_join_comps_snoc(pre);
            assert(pre.drop_last() =~= all.take(i - lo));
            assert(pre.last() == cs@[i as int].view());
            assert(pre[0] == cs@[i as int].view() || i > lo);
        }
        let ghost old_out = out@;
        if i > lo {
            out.push('/');
        }
        push_comp_text(&mut out, &cs[i]);
        proof {
            if i == lo {
                assert(all.take(0) =~= Seq::<Comp>::empty());
                lemma_join_comps_snoc(all.take(0));
                assert(pre.len() == 1);
                assert(pre[0] == cs@[i as int].view());
                assert(out@ =~= comp_text(pre[0]));
            } else {
                assert(pre.len() > 1);
                assert(out@ =~= old_out + seq!['/'] + comp_text(pre.last()));
            }
            assert(all.take(i + 1 - lo) == pre);
        }
        i = i + 1;
    }
    assert(comps_view(cs@).skip(lo as int).take(i - lo) =~= comps_view(cs@).skip(lo as int));
    out
}

/// The text of a path made of the given components.
pub fn render_comps(cs: &Vec<PathComp>) -> (r: Vec<char>)
    ensures
        r@ == render(comps_view(cs@)),
{
    if cs.len() > 0 && matches!(cs[0], PathComp::Root) {
        assert(comps_view(cs@).skip(1) =~= comps_view(cs@).drop_first());
        let mut out: Vec<char> = Vec::new();
        out.push('/');
        let rest = join_comps_exec(cs, 1);
        crate::text::append_chars(&mut out, &rest);
        out
    } else {
        assert(comps_view(cs@).skip(0) =~= comps_view(cs@));
        join_comps_exec(cs, 0)
    }
}

/// Equality of two components.
pub fn comp_eq(a: &PathComp, b: &PathComp) -> (r: bool)
    ensures
        r == (a.view() == b.view()),
{
    match (a, b) {
        (PathComp::Root, PathComp::Root) => true,
        (PathComp::Parent, PathComp::Parent) => true,
        (PathComp::Normal(x), PathComp::Normal(y)) => crate::text::chars_eq(x, y),
        _ => false,
    }
}

/// Whether the components `p` are a prefix of `c`.
pub fn comps_prefix_exec(p: &Vec<PathComp>, c: &Vec<PathComp>) -> (r: bool)
    ensures
        r == comps_prefix(comps_view(p@), comps_view(c@)),
{
    if p.len() > c.len() {
        return false;
    }
    let mut i: usize = 0;
    while i < p.len()
        invariant
            i <= p@.len() <= c@.len(),
            forall|k: int| 0 <= k < i ==> p@[k].view() == c@[k].view(),
        decreases p.len() - i,
    {
        if !comp_eq(&p[i], &c[i]) {
            assert(comps_view(c@).take(comps_view(p@).len() as int)[i as int] != comps_view(
                p@,
            )[i as int]);
            return false;
        }
        i = i + 1;
    }
    assert(comps_view(c@).take(comps_view(p@).len() as int) =~= comps_view(p@));
    true
}

/// The last component, when it is a name (`Path::file_name`).
pub open spec fn file_name(cs: Seq<Comp>) -> Option<Seq<char>> {
    if cs.len() > 0 && cs.last() is Normal {
        Some(cs.last()->Normal_0)
    } else {
        None
    }
}

/// Index of the last `.` in a name.
pub open spec fn last_dot(name: Seq<char>) -> Option<int> {
    if exists|i: int| 0 <= i < name.len() && name[i] == '.' {
        Some(choose|i: int| 0 <= i < name.len() && name[i] == '.' && forall|j: int|
            i < j < name.len() ==> name[j] != '.')
    } else {
        None
    }
}

/// `Path::extension` of a file name: the text after the last `.`, unless
/// the only `.` is the first character.
pub open spec fn name_extension(name: Seq<char>) -> Option<Seq<char>> {
    match last_dot(name) {
        Some(k) => if k > 0 {
            Some(name.skip(k + 1))
        } else {
            None
        },
        None => None,
    }
}

/// `Path::file_stem` of a file name.
pub open spec fn name_stem(name: Seq<char>) -> Seq<char> {
    match last_dot(name) {
        Some(k) => if k > 0 {
            name.take(k)
        } else {
            name
        },
        None => name,
    }
}

/// `Path::extension`.
pub open spec fn extension(s: Seq<char>) -> Option<Seq<char>> {
    match file_name(components(s)) {
        Some(n) => name_extension(n),
        None => None,
    }
}

pub fn find_last_dot(name: &[char]) -> (r: Option<usize>)
    ensures
        r matches Some(k) ==> last_dot(name@) == Some(k as int),
        r matches Some(k) ==> k < name@.len(),
        r is None ==> last_dot(name@) is None,
{
    let mut i = name.len();
    while i > 0
        invariant
            i <= name@.len(),
            forall|j: int| i <= j < name@.len() ==> name@[j] != '.',
        decreases i,
    {
        if name[i - 1] == '.' {
            let k = i - 1;
            proof {
                let c = choose|c: int| 0 <= c < name@.len() && name@[c] == '.' && forall|j: int|
                    c < j < name@.len() ==> name@[j] != '.';
                assert(0 <= k < name@.len() && name@[k as int] == '.' && forall|j: int|
                    k < j < name@.len() ==> name@[j] != '.');
                if c < k {
                    assert(name@[k as int] != '.');
                }
                if c > k {
                    assert(name@[c] != '.');
                }
            }
            return Some(k);
        }
        i = i - 1;
    }
    None
}

/// The file name of a path, when its last component is a name.
pub fn file_name_exec(cs: &Vec<PathComp>) -> (r: Option<Vec<char>>)
    ensures
        r matches Some(n) ==> file_name(comps_view(cs@)) == Some(n@),
        r is None ==> file_name(comps_view(cs@)) is None,
{
    let n = cs.len();
    if n == 0 {
        return None;
    }
    match &cs[n - 1] {
        PathComp::Normal(v) => Some(sub_vec(v, 0, v.len())),
        _ => None,
    }
}

/// `Path::extension` of a file name.
pub fn name_extension_exec(name: &[char]) -> (r: Option<Vec<char>>)
    ensures
        r matches Some(e) ==> name_extension(name@) == Some(e@),
        r is None ==> name_extension(name@) is None,
{
    match find_last_dot(name) {
        Some(k) => if k > 0 {
            let n = name.len();
            assert(k < n);
            Some(sub_vec(name, k + 1, n))
        } else {
            None
        },
        None => None,
    }
}

/// `Path::file_stem` of a file name.
pub fn name_stem_exec(name: &[char]) -> (r: Vec<char>)
    ensures
        r@ == name_stem(name@),
{
    match find_last_dot(name) {
        Some(k) => if k > 0 {
            sub_vec(name, 0, k)
        } else {
            sub_vec(name, 0, name.len())
        },
        None => sub_vec(name, 0, name.len()),
    }
}

/// `Path::extension` of a path.
pub fn path_extension(s: &[char]) -> (r: Option<Vec<char>>)
    ensures
        r matches Some(e) ==> extension(s@) == Some(e@),
        r is None ==> extension(s@) is None,
{
    let cs = path_components(s);
    match file_name_exec(&cs) {
        Some(n) => name_extension_exec(&n),
        None => None,
    }
}

} // verus!
