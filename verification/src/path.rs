//! Unix paths as byte strings, and what the library does with them: split
//! into components, compare, join, take apart file names, make absolute.
use crate::bytes::{append_bytes, copy_range, find, find_byte, lemma_find, lemma_find_is, range_equals};
use vstd::prelude::*;

verus! {

/// A component of a path, as a specification value.
pub enum ComponentView {
    /// The `/` a path starts with.
    RootDir,
    /// A `.` at the start of a relative path.
    CurDir,
    /// `..`
    ParentDir,
    /// Any other name.
    Normal(Seq<u8>),
}

/// A component of a path.
#[derive(Debug, PartialEq, Eq)]
pub enum Component {
    /// The `/` a path starts with.
    RootDir,
    /// A `.` at the start of a relative path.
    CurDir,
    /// `..`
    ParentDir,
    /// Any other name.
    Normal(Vec<u8>),
}

impl View for Component {
    type V = ComponentView;

    open spec fn view(&self) -> ComponentView {
        match self {
            Component::RootDir => ComponentView::RootDir,
            Component::CurDir => ComponentView::CurDir,
            Component::ParentDir => ComponentView::ParentDir,
            Component::Normal(n) => ComponentView::Normal(n@),
        }
    }
}

/// The views of a list of components.
pub open spec fn component_views(cs: Seq<Component>) -> Seq<ComponentView> {
    cs.map_values(|c: Component| c@)
}

/// `.`
pub open spec fn dot() -> Seq<u8> {
    seq![46u8]
}

/// `..`
pub open spec fn dot_dot() -> Seq<u8> {
    seq![46u8, 46u8]
}

/// What a piece between two `/` stands for: nothing where it is empty or
/// `.`, else a component.
pub open spec fn piece_component(piece: Seq<u8>) -> Option<ComponentView> {
    if piece.len() == 0 || piece == dot() {
        None
    } else if piece == dot_dot() {
        Some(ComponentView::ParentDir)
    } else {
        Some(ComponentView::Normal(piece))
    }
}

/// The components of the pieces of `s` between `/`.
pub open spec fn piece_components(s: Seq<u8>) -> Seq<ComponentView>
    decreases s.len(),
{
    if s.len() == 0 {
        seq![]
    } else {
        let i = find(s, 47u8);
        let rest = if i < s.len() {
            proof {
                lemma_find(s, 47u8);
            }
            piece_components(s.skip(i + 1))
        } else {
            seq![]
        };
        match piece_component(s.take(i)) {
            Some(c) => seq![c] + rest,
            None => rest,
        }
    }
}

/// The path starts with `/`.
pub open spec fn spec_is_absolute(p: Seq<u8>) -> bool {
    p.len() > 0 && p[0] == 47u8
}

/// The path starts with a `.` of its own: `.` or `./...`.
pub open spec fn starts_with_cur_dir(p: Seq<u8>) -> bool {
    p.len() > 0 && p[0] == 46u8 && (p.len() == 1 || p[1] == 47u8)
}

/// The components of a path: a root or a leading `.`, then the names and
/// `..` between the `/`, where empty pieces and later `.` stand for nothing.
pub open spec fn components(p: Seq<u8>) -> Seq<ComponentView> {
    if spec_is_absolute(p) {
        seq![ComponentView::RootDir] + piece_components(p.skip(1))
    } else if starts_with_cur_dir(p) {
        seq![ComponentView::CurDir] + piece_components(p.skip(1))
    } else {
        piece_components(p)
    }
}

/// `p` appended to `base` as `PathBuf::push` does: an absolute `p` takes
/// the place of `base`, else a `/` goes between where `base` does not end
/// in one.
pub open spec fn spec_join(base: Seq<u8>, p: Seq<u8>) -> Seq<u8> {
    if spec_is_absolute(p) {
        p
    } else if base.len() == 0 || base.last() == 47u8 {
        base + p
    } else {
        base + seq![47u8] + p
    }
}

/// Whether the path starts with `/`.
pub fn is_absolute(p: &[u8]) -> (r: bool)
    ensures
        r == spec_is_absolute(p@),
{
    p.len() > 0 && p[0] == 47u8
}

/// Whether the path does not start with `/`.
pub fn is_relative(p: &[u8]) -> (r: bool)
    ensures
        r == !spec_is_absolute(p@),
{
    !is_absolute(p)
}

/// `p` joined onto `base`, as `Path::join` does.
pub fn join(base: &[u8], p: &[u8]) -> (r: Vec<u8>)
    ensures
        r@ == spec_join(base@, p@),
{
    let mut out: Vec<u8> = Vec::new();
    if is_absolute(p) {
        append_bytes(&mut out, p);
        return out;
    }
    append_bytes(&mut out, base);
    if base.len() > 0 && base[base.len() - 1] != 47u8 {
        out.push(47u8);
    }
    append_bytes(&mut out, p);
    out
}

/// The component for the piece `s[from..to]`, if it stands for one.
fn piece_at(s: &[u8], from: usize, to: usize) -> (r: Option<Component>)
    requires
        from <= to <= s@.len(),
    ensures
        match r {
            Some(c) => piece_component(s@.subrange(from as int, to as int)) == Some(c@),
            None => piece_component(s@.subrange(from as int, to as int)) is None,
        },
{
    let d: Vec<u8> = vec![46u8];
    let dd: Vec<u8> = vec![46u8, 46u8];
    assert(d@ =~= dot());
    assert(dd@ =~= dot_dot());
    if from == to || range_equals(s, from, to, d.as_slice()) {
        None
    } else if range_equals(s, from, to, dd.as_slice()) {
        Some(Component::ParentDir)
    } else {
        Some(Component::Normal(copy_range(s, from, to)))
    }
}

/// Appends the components of the pieces of `s[from..]` between `/`.
fn push_pieces(s: &[u8], from: usize, out: &mut Vec<Component>)
    requires
        from <= s@.len(),
    ensures
        component_views(final(out)@) == component_views(old(out)@) + piece_components(
            s@.skip(from as int),
        ),
{
    let n = s.len();
    let ghost start = component_views(out@);
    let mut pos = from;
    assert(start + piece_components(s@.skip(from as int)) == start + piece_components(
        s@.skip(from as int),
    ));
    while pos < n
        invariant
            n == s@.len(),
            from <= pos <= n,
            component_views(out@) + piece_components(s@.skip(pos as int)) == start
                + piece_components(s@.skip(from as int)),
        decreases n - pos,
    {
        let i = find_byte(s, pos, n, 47u8);
        let ghost rest = s@.skip(pos as int);
        assert(s@.subrange(pos as int, n as int) =~= rest);
        proof {
            lemma_find(rest, 47u8);
        }
        let ghost old_out = out@;
        let c = piece_at(s, pos, i);
        assert(rest.take(i - pos) =~= s@.subrange(pos as int, i as int));
        let ghost tail = if i < n {
            piece_components(s@.skip(i + 1))
        } else {
            Seq::<ComponentView>::empty()
        };
        assert(i < n ==> rest.skip(i - pos + 1) =~= s@.skip(i + 1));
        match c {
            Some(c) => {
                out.push(c);
                assert(component_views(out@) =~= component_views(old_out).push(c@));
                assert(piece_components(rest) == seq![c@] + tail);
                assert(component_views(out@) + tail =~= component_views(old_out)
                    + piece_components(rest));
            },
            None => {
                assert(piece_components(rest) == tail);
                assert(component_views(out@) + tail =~= component_views(old_out)
                    + piece_components(rest));
            },
        }
        if i < n {
            pos = i + 1;
        } else {
            assert(s@.skip(n as int) =~= Seq::<u8>::empty());
            pos = n;
        }
    }
    assert(s@.skip(n as int) =~= Seq::<u8>::empty());
    assert(component_views(out@) + piece_components(s@.skip(n as int)) =~= component_views(
        out@,
    ));
}

/// The components of a path, as `Path::components` gives them.
pub fn path_components(p: &[u8]) -> (r: Vec<Component>)
    ensures
        component_views(r@) == components(p@),
{
    let mut out: Vec<Component> = Vec::new();
    if is_absolute(p) {
        out.push(Component::RootDir);
        assert(component_views(out@) =~= seq![ComponentView::RootDir]);
        push_pieces(p, 1, &mut out);
    } else if p.len() > 0 && p[0] == 46u8 && (p.len() == 1 || p[1] == 47u8) {
        out.push(Component::CurDir);
        assert(component_views(out@) =~= seq![ComponentView::CurDir]);
        push_pieces(p, 1, &mut out);
    } else {
        assert(component_views(out@) =~= Seq::<ComponentView>::empty());
        assert(p@.skip(0) =~= p@);
        push_pieces(p, 0, &mut out);
        assert(component_views(out@) =~= piece_components(p@));
    }
    out
}

/// The bytes a component stands for.
pub open spec fn component_bytes(c: ComponentView) -> Seq<u8> {
    match c {
        ComponentView::RootDir => seq![47u8],
        ComponentView::CurDir => dot(),
        ComponentView::ParentDir => dot_dot(),
        ComponentView::Normal(n) => n,
    }
}

/// The path that pushing the components one after another onto an empty
/// path gives.
pub open spec fn render(cs: Seq<ComponentView>) -> Seq<u8>
    decreases cs.len(),
{
    if cs.len() == 0 {
        seq![]
    } else {
        spec_join(render(cs.drop_last()), component_bytes(cs.last()))
    }
}

/// `PathBuf::pop`: the last component goes, unless it is the root.
pub open spec fn pop_component(acc: Seq<ComponentView>) -> Seq<ComponentView> {
    if acc.len() == 0 || acc.last() == ComponentView::RootDir {
        acc
    } else {
        acc.drop_last()
    }
}

/// One component applied to a path without touching the file system: `.`
/// changes nothing, `..` goes up, the root starts over, a name goes down.
pub open spec fn resolve_step(acc: Seq<ComponentView>, c: ComponentView) -> Seq<ComponentView> {
    match c {
        ComponentView::CurDir => acc,
        ComponentView::ParentDir => pop_component(acc),
        ComponentView::RootDir => seq![ComponentView::RootDir],
        ComponentView::Normal(_) => acc.push(c),
    }
}

/// The components applied one after another to `acc`.
pub open spec fn resolve(acc: Seq<ComponentView>, cs: Seq<ComponentView>) -> Seq<ComponentView>
    decreases cs.len(),
{
    if cs.len() == 0 {
        acc
    } else {
        resolve_step(resolve(acc, cs.drop_last()), cs.last())
    }
}

/// The components of `p` made absolute against the working directory `cwd`
/// without following links or looking at the file system.
pub open spec fn absolute_components(cwd: Seq<u8>, p: Seq<u8>) -> Seq<ComponentView> {
    resolve(
        if spec_is_absolute(p) {
            seq![]
        } else {
            components(cwd)
        },
        components(p),
    )
}

/// `p` made absolute against `cwd` without following links.
pub open spec fn spec_lexical_absolute(cwd: Seq<u8>, p: Seq<u8>) -> Seq<u8> {
    render(absolute_components(cwd, p))
}

/// A copy of a component.
fn copy_component(c: &Component) -> (r: Component)
    ensures
        r@ == c@,
{
    match c {
        Component::RootDir => Component::RootDir,
        Component::CurDir => Component::CurDir,
        Component::ParentDir => Component::ParentDir,
        Component::Normal(n) => {
            let m = copy_range(n.as_slice(), 0, n.len());
            assert(m@ =~= n@);
            Component::Normal(m)
        },
    }
}

/// The bytes a component stands for.
fn component_text(c: &Component) -> (r: Vec<u8>)
    ensures
        r@ == component_bytes(c@),
{
    match c {
        Component::RootDir => vec![47u8],
        Component::CurDir => vec![46u8],
        Component::ParentDir => vec![46u8, 46u8],
        Component::Normal(n) => {
            let m = copy_range(n.as_slice(), 0, n.len());
            assert(m@ =~= n@);
            m
        },
    }
}

/// The path made of the components.
pub fn render_components(cs: &Vec<Component>) -> (r: Vec<u8>)
    ensures
        r@ == render(component_views(cs@)),
{
    let ghost v = component_views(cs@);
    let mut out: Vec<u8> = Vec::new();
    let mut i: usize = 0;
    assert(v.take(0) =~= Seq::<ComponentView>::empty());
    while i < cs.len()
        invariant
            i <= cs@.len(),
            v == component_views(cs@),
            out@ == render(v.take(i as int)),
        decreases cs@.len() - i,
    {
        let t = component_text(&cs[i]);
        out = join(out.as_slice(), t.as_slice());
        assert(v.take(i + 1).drop_last() =~= v.take(i as int));
        assert(v.take(i + 1).last() == cs@[i as int]@);
        i = i + 1;
    }
    assert(v.take(i as int) =~= v);
    out
}

/// The components of `p` made absolute against the working directory `cwd`
/// (only read where `p` is relative), without following links.
pub fn absolute_path_components(cwd: &[u8], p: &[u8]) -> (r: Vec<Component>)
    ensures
        component_views(r@) == absolute_components(cwd@, p@),
{
    let pc = path_components(p);
    let ghost pv = component_views(pc@);
    let mut acc: Vec<Component> = if is_absolute(p) {
        Vec::new()
    } else {
        path_components(cwd)
    };
    let ghost start = component_views(acc@);
    assert(start =~= if spec_is_absolute(p@) {
        Seq::<ComponentView>::empty()
    } else {
        components(cwd@)
    });
    let mut i: usize = 0;
    assert(pv.take(0) =~= Seq::<ComponentView>::empty());
    while i < pc.len()
        invariant
            i <= pc@.len(),
            pv == component_views(pc@),
            component_views(acc@) == resolve(start, pv.take(i as int)),
        decreases pc@.len() - i,
    {
        let ghost before = component_views(acc@);
        assert(pv.take(i + 1).drop_last() =~= pv.take(i as int));
        assert(pv.take(i + 1).last() == pc@[i as int]@);
        match &pc[i] {
            Component::CurDir => {},
            Component::ParentDir => {
                let n = acc.len();
                if n > 0 {
                    let is_root = match &acc[n - 1] {
                        Component::RootDir => true,
                        _ => false,
                    };
                    if !is_root {
                        acc.pop();
                        assert(component_views(acc@) =~= before.drop_last());
                    }
                }
            },
            Component::RootDir => {
                acc = Vec::new();
                acc.push(Component::RootDir);
                assert(component_views(acc@) =~= seq![ComponentView::RootDir]);
            },
            Component::Normal(_) => {
                let c = copy_component(&pc[i]);
                acc.push(c);
                assert(component_views(acc@) =~= before.push(pc@[i as int]@));
            },
        }
        i = i + 1;
    }
    assert(pv.take(i as int) =~= pv);
    acc
}

/// `p` made absolute against the working directory `cwd` (only read where
/// `p` is relative), without following links and without asking whether
/// the file exists: `.` is dropped and `..` removes the component before it.
pub fn lexical_absolute(cwd: &[u8], p: &[u8]) -> (r: Vec<u8>)
    ensures
        r@ == spec_lexical_absolute(cwd@, p@),
{
    let cs = absolute_path_components(cwd, p);
    render_components(&cs)
}

/// Whether two components are the same.
pub fn component_eq(a: &Component, b: &Component) -> (r: bool)
    ensures
        r == (a@ == b@),
{
    match (a, b) {
        (Component::RootDir, Component::RootDir) => true,
        (Component::CurDir, Component::CurDir) => true,
        (Component::ParentDir, Component::ParentDir) => true,
        (Component::Normal(x), Component::Normal(y)) => {
            let r = range_equals(x.as_slice(), 0, x.len(), y.as_slice());
            assert(x@.subrange(0, x@.len() as int) =~= x@);
            r
        },
        _ => false,
    }
}

/// `a` is a prefix of `b`.
pub open spec fn is_prefix(a: Seq<ComponentView>, b: Seq<ComponentView>) -> bool {
    a.len() <= b.len() && b.take(a.len() as int) == a
}

/// `base` is a prefix of `p`, component by component: what
/// `Path::strip_prefix` succeeds on.
pub open spec fn spec_starts_with(p: Seq<u8>, base: Seq<u8>) -> bool {
    is_prefix(components(base), components(p))
}

/// Two paths are the same path: the same components, as `==` on `Path`
/// compares them.
pub open spec fn same_path(a: Seq<u8>, b: Seq<u8>) -> bool {
    components(a) == components(b)
}

/// Path equality is an equivalence of paths with the same components: two
/// equal paths have equal components, and a path never equals a strict
/// ancestor or descendant of it.
pub proof fn lemma_same_path(a: Seq<u8>, b: Seq<u8>, c: Seq<u8>)
    ensures
        same_path(a, b) ==> components(a) == components(b),
        same_path(a, a),
        same_path(a, b) == same_path(b, a),
        same_path(a, b) && same_path(b, c) ==> same_path(a, c),
        spec_starts_with(a, b) && components(b).len() < components(a).len() ==> !same_path(
            a,
            b,
        ),
        spec_starts_with(b, a) && components(a).len() < components(b).len() ==> !same_path(
            a,
            b,
        ),
{
}

/// Whether the first `n` components of `a` and `b` are the same.
fn components_agree(a: &Vec<Component>, b: &Vec<Component>, n: usize) -> (r: bool)
    requires
        n <= a@.len(),
        n <= b@.len(),
    ensures
        r == (component_views(a@).take(n as int) == component_views(b@).take(n as int)),
{
    let mut i: usize = 0;
    while i < n
        invariant
            i <= n <= a@.len(),
            n <= b@.len(),
            forall|j: int| 0 <= j < i ==> a@[j]@ == b@[j]@,
        decreases n - i,
    {
        if !component_eq(&a[i], &b[i]) {
            assert(component_views(a@).take(n as int)[i as int] == a@[i as int]@);
            assert(component_views(b@).take(n as int)[i as int] == b@[i as int]@);
            return false;
        }
        i = i + 1;
    }
    assert(component_views(a@).take(n as int) =~= component_views(b@).take(n as int));
    true
}

/// Whether `p` starts with the components of `base`.
pub fn starts_with(p: &[u8], base: &[u8]) -> (r: bool)
    ensures
        r == spec_starts_with(p@, base@),
{
    let pc = path_components(p);
    let bc = path_components(base);
    if bc.len() > pc.len() {
        return false;
    }
    let r = components_agree(&pc, &bc, bc.len());
    assert(component_views(bc@).take(bc@.len() as int) =~= component_views(bc@));
    r
}

/// Whether `a` and `b` are the same path.
pub fn paths_equal(a: &[u8], b: &[u8]) -> (r: bool)
    ensures
        r == same_path(a@, b@),
{
    let ac = path_components(a);
    let bc = path_components(b);
    if ac.len() != bc.len() {
        return false;
    }
    let r = components_agree(&ac, &bc, ac.len());
    assert(component_views(ac@).take(ac@.len() as int) =~= component_views(ac@));
    assert(component_views(bc@).take(bc@.len() as int) =~= component_views(bc@));
    r
}

/// The last component of the path, where it is a name.
pub open spec fn spec_file_name(p: Seq<u8>) -> Option<Seq<u8>> {
    let cs = components(p);
    if cs.len() > 0 {
        match cs.last() {
            ComponentView::Normal(n) => Some(n),
            _ => None,
        }
    } else {
        None
    }
}

/// The index of the last `b` in `s`, or -1.
pub open spec fn rfind(s: Seq<u8>, b: u8) -> int
    decreases s.len(),
{
    if s.len() == 0 {
        -1
    } else if s.last() == b {
        s.len() - 1
    } else {
        rfind(s.drop_last(), b)
    }
}

/// The part of a file name before its last `.`, unless the name starts with
/// that `.` or is `..`.
pub open spec fn name_stem(name: Seq<u8>) -> Seq<u8> {
    let i = rfind(name, 46u8);
    if name == dot_dot() || i <= 0 {
        name
    } else {
        name.take(i)
    }
}

/// The part of a file name after its last `.`, unless the name starts with
/// that `.` or is `..`.
pub open spec fn name_extension(name: Seq<u8>) -> Option<Seq<u8>> {
    let i = rfind(name, 46u8);
    if name == dot_dot() || i <= 0 {
        None
    } else {
        Some(name.skip(i + 1))
    }
}

/// What `Path::file_stem` gives.
pub open spec fn spec_file_stem(p: Seq<u8>) -> Option<Seq<u8>> {
    match spec_file_name(p) {
        Some(n) => Some(name_stem(n)),
        None => None,
    }
}

/// What `Path::extension` gives.
pub open spec fn spec_extension(p: Seq<u8>) -> Option<Seq<u8>> {
    match spec_file_name(p) {
        Some(n) => name_extension(n),
        None => None,
    }
}

/// The last component of the path, where it is a name.
pub fn file_name(p: &[u8]) -> (r: Option<Vec<u8>>)
    ensures
        match r {
            Some(n) => spec_file_name(p@) == Some(n@),
            None => spec_file_name(p@) is None,
        },
{
    let cs = path_components(p);
    let n = cs.len();
    if n == 0 {
        return None;
    }
    assert(component_views(cs@).last() == cs@[n - 1]@);
    match &cs[n - 1] {
        Component::Normal(name) => {
            let m = copy_range(name.as_slice(), 0, name.len());
            assert(m@ =~= name@);
            Some(m)
        },
        _ => None,
    }
}

/// The index of the last `b` in `s`, or `None`.
fn rfind_byte(s: &[u8], b: u8) -> (r: Option<usize>)
    ensures
        match r {
            Some(i) => i < s@.len() && rfind(s@, b) == i,
            None => rfind(s@, b) == -1,
        },
{
    let mut k = s.len();
    assert(s@.take(k as int) =~= s@);
    while k > 0
        invariant
            k <= s@.len(),
            rfind(s@, b) == rfind(s@.take(k as int), b),
        decreases k,
    {
        assert(s@.take(k as int).last() == s@[k - 1]);
        if s[k - 1] == b {
            return Some(k - 1);
        }
        assert(s@.take(k as int).drop_last() =~= s@.take(k - 1));
        k = k - 1;
    }
    None
}

/// The file name without its extension, as `Path::file_stem` gives it.
pub fn file_stem(p: &[u8]) -> (r: Option<Vec<u8>>)
    ensures
        match r {
            Some(n) => spec_file_stem(p@) == Some(n@),
            None => spec_file_stem(p@) is None,
        },
{
    let name = match file_name(p) {
        Some(n) => n,
        None => {
            return None;
        },
    };
    let dd: Vec<u8> = vec![46u8, 46u8];
    assert(dd@ =~= dot_dot());
    if range_equals(name.as_slice(), 0, name.len(), dd.as_slice()) {
        assert(name@.subrange(0, name@.len() as int) =~= name@);
        return Some(name);
    }
    assert(name@.subrange(0, name@.len() as int) =~= name@);
    match rfind_byte(name.as_slice(), 46u8) {
        Some(i) => {
            if i == 0 {
                Some(name)
            } else {
                Some(copy_range(name.as_slice(), 0, i))
            }
        },
        None => Some(name),
    }
}

/// The file name's extension, as `Path::extension` gives it.
pub fn extension(p: &[u8]) -> (r: Option<Vec<u8>>)
    ensures
        match r {
            Some(n) => spec_extension(p@) == Some(n@),
            None => spec_extension(p@) is None,
        },
{
    let name = match file_name(p) {
        Some(n) => n,
        None => {
            return None;
        },
    };
    let dd: Vec<u8> = vec![46u8, 46u8];
    assert(dd@ =~= dot_dot());
    assert(name@.subrange(0, name@.len() as int) =~= name@);
    if range_equals(name.as_slice(), 0, name.len(), dd.as_slice()) {
        return None;
    }
    match rfind_byte(name.as_slice(), 46u8) {
        Some(i) => {
            if i == 0 {
                None
            } else {
                let e = copy_range(name.as_slice(), i + 1, name.len());
                assert(e@ =~= name@.skip(i + 1));
                Some(e)
            }
        },
        None => None,
    }
}

/// The path and its parents, one after another, as `Path::ancestors` gives
/// them for the path made of these components.
pub open spec fn ancestors_of(cs: Seq<ComponentView>) -> Seq<Seq<u8>>
    decreases cs.len(),
{
    if cs.len() == 0 || cs.last() == ComponentView::RootDir {
        seq![render(cs)]
    } else {
        seq![render(cs)] + ancestors_of(cs.drop_last())
    }
}

/// The path made of the components after the first `k`.
pub fn render_suffix(cs: &Vec<Component>, k: usize) -> (r: Vec<u8>)
    requires
        k <= cs@.len(),
    ensures
        r@ == render(component_views(cs@).skip(k as int)),
{
    let ghost v = component_views(cs@);
    let ghost w = v.skip(k as int);
    let mut out: Vec<u8> = Vec::new();
    let mut i: usize = k;
    assert(w.take(0) =~= Seq::<ComponentView>::empty());
    while i < cs.len()
        invariant
            k <= i <= cs@.len(),
            v == component_views(cs@),
            w == v.skip(k as int),
            out@ == render(w.take(i - k)),
        decreases cs@.len() - i,
    {
        let t = component_text(&cs[i]);
        out = join(out.as_slice(), t.as_slice());
        assert(w.take(i - k + 1).drop_last() =~= w.take(i - k));
        assert(w.take(i - k + 1).last() == cs@[i as int]@);
        i = i + 1;
    }
    assert(w.take(i - k) =~= w);
    out
}

/// `p` relative to `base` where it lies under it: the path of its
/// components after those of `base`, as `Path::strip_prefix` gives it.
pub open spec fn spec_relative_to(p: Seq<u8>, base: Seq<u8>) -> Seq<u8> {
    render(components(p).skip(components(base).len() as int))
}

/// `p` relative to `base`, where `base` is a prefix of `p`, component by
/// component.
pub fn relative_to(p: &[u8], base: &[u8]) -> (r: Option<Vec<u8>>)
    ensures
        match r {
            Some(q) => spec_starts_with(p@, base@) && q@ == spec_relative_to(p@, base@),
            None => !spec_starts_with(p@, base@),
        },
{
    if !starts_with(p, base) {
        return None;
    }
    let pc = path_components(p);
    let bc = path_components(base);
    Some(render_suffix(&pc, bc.len()))
}

/// The renderings of the ancestors.
pub open spec fn texts(v: Seq<Vec<u8>>) -> Seq<Seq<u8>> {
    v.map_values(|x: Vec<u8>| x@)
}

/// The path made of the first `n` components.
fn render_prefix(cs: &Vec<Component>, n: usize) -> (r: Vec<u8>)
    requires
        n <= cs@.len(),
    ensures
        r@ == render(component_views(cs@).take(n as int)),
{
    let ghost v = component_views(cs@);
    let mut out: Vec<u8> = Vec::new();
    let mut i: usize = 0;
    assert(v.take(0) =~= Seq::<ComponentView>::empty());
    while i < n
        invariant
            i <= n <= cs@.len(),
            v == component_views(cs@),
            out@ == render(v.take(i as int)),
        decreases n - i,
    {
        let t = component_text(&cs[i]);
        out = join(out.as_slice(), t.as_slice());
        assert(v.take(i + 1).drop_last() =~= v.take(i as int));
        assert(v.take(i + 1).last() == cs@[i as int]@);
        i = i + 1;
    }
    out
}

/// The ancestors of the path made of the components: itself first, then
/// each parent up to the root (or the empty path).
pub fn ancestors(cs: &Vec<Component>) -> (r: Vec<Vec<u8>>)
    ensures
        texts(r@) == ancestors_of(component_views(cs@)),
{
    let ghost v = component_views(cs@);
    let mut out: Vec<Vec<u8>> = Vec::new();
    let mut k = cs.len();
    let mut done = false;
    assert(v.take(k as int) =~= v);
    assert(texts(out@) =~= Seq::<Seq<u8>>::empty());
    while !done
        invariant
            k <= cs@.len(),
            v == component_views(cs@),
            !done ==> texts(out@) + ancestors_of(v.take(k as int)) == ancestors_of(v),
            done ==> texts(out@) == ancestors_of(v),
        decreases k + (if done {
            0int
        } else {
            1int
        }),
    {
        let ghost before = texts(out@);
        let r = render_prefix(cs, k);
        out.push(r);
        assert(texts(out@) =~= before.push(r@));
        let stop = if k == 0 {
            true
        } else {
            match &cs[k - 1] {
                Component::RootDir => true,
                _ => false,
            }
        };
        if stop {
            assert(k > 0 ==> v.take(k as int).last() == cs@[k - 1]@);
            assert(ancestors_of(v.take(k as int)) == seq![render(v.take(k as int))]);
            assert(texts(out@) =~= before + ancestors_of(v.take(k as int)));
            done = true;
        } else {
            assert(v.take(k as int).last() == cs@[k - 1]@);
            assert(v.take(k as int).drop_last() =~= v.take(k - 1));
            assert(ancestors_of(v.take(k as int)) == seq![render(v.take(k as int))]
                + ancestors_of(v.take(k - 1)));
            assert(texts(out@) + ancestors_of(v.take(k - 1)) =~= before + ancestors_of(
                v.take(k as int),
            ));
            k = k - 1;
        }
    }
    out
}

/// How many devices, from the first on, are `dev`.
pub open spec fn same_device_run(devices: Seq<Option<u64>>, dev: u64) -> int
    decreases devices.len(),
{
    if devices.len() == 0 || devices[0] != Some(dev) {
        0
    } else {
        1 + same_device_run(devices.drop_first(), dev)
    }
}

/// The mount point among the ancestors of a path: the last of the leading
/// ancestors that lie on the path's own device. `devices[i]` is the device
/// of `ancestors[i]`, or `None` where it could not be read; where no
/// ancestor qualifies, the empty path.
pub open spec fn spec_mount_root(
    ancestors: Seq<Seq<u8>>,
    devices: Seq<Option<u64>>,
    dev: u64,
) -> Seq<u8> {
    let run = same_device_run(devices, dev);
    let k = if run < ancestors.len() {
        run
    } else {
        ancestors.len() as int
    };
    if k == 0 {
        seq![]
    } else {
        ancestors[k - 1]
    }
}

proof fn lemma_run_bounds(devices: Seq<Option<u64>>, dev: u64)
    ensures
        0 <= same_device_run(devices, dev) <= devices.len(),
        forall|i: int| 0 <= i < same_device_run(devices, dev) ==> devices[i] == Some(dev),
        same_device_run(devices, dev) < devices.len() ==> devices[same_device_run(devices, dev)]
            != Some(dev),
    decreases devices.len(),
{
    if devices.len() > 0 && devices[0] == Some(dev) {
        lemma_run_bounds(devices.drop_first(), dev);
        assert forall|i: int| 0 <= i < same_device_run(devices, dev) implies devices[i] == Some(
            dev,
        ) by {
            if i > 0 {
                assert(devices[i] == devices.drop_first()[i - 1]);
            }
        }
    }
}

proof fn lemma_run_is(devices: Seq<Option<u64>>, dev: u64, k: int)
    requires
        0 <= k <= devices.len(),
        forall|i: int| 0 <= i < k ==> devices[i] == Some(dev),
        k < devices.len() ==> devices[k] != Some(dev),
    ensures
        same_device_run(devices, dev) == k,
    decreases devices.len(),
{
    if k > 0 {
        assert forall|i: int| 0 <= i < k - 1 implies devices.drop_first()[i] == Some(dev) by {
            assert(devices.drop_first()[i] == devices[i + 1]);
        }
        lemma_run_is(devices.drop_first(), dev, k - 1);
    }
}

/// The mount point among the ancestors of a path on device `dev`.
pub fn mount_root_of(ancestors: &Vec<Vec<u8>>, devices: &Vec<Option<u64>>, dev: u64) -> (r: Vec<
    u8,
>)
    ensures
        r@ == spec_mount_root(texts(ancestors@), devices@, dev),
{
    let mut k: usize = 0;
    while k < ancestors.len() && k < devices.len() && devices[k] == Some(dev)
        invariant
            k <= ancestors@.len(),
            k <= devices@.len(),
            forall|i: int| 0 <= i < k ==> devices@[i] == Some(dev),
        decreases ancestors@.len() - k,
    {
        k = k + 1;
    }
    proof {
        lemma_run_bounds(devices@, dev);
        if k < devices@.len() && devices@[k as int] != Some(dev) {
            lemma_run_is(devices@, dev, k as int);
        } else if k == devices@.len() {
            lemma_run_is(devices@, dev, k as int);
        }
    }
    if k == 0 {
        Vec::new()
    } else {
        let a = &ancestors[k - 1];
        let m = copy_range(a.as_slice(), 0, a.len());
        assert(m@ =~= a@);
        m
    }
}

/// A component that a piece between two `/` can stand for: `..`, or a
/// name that is not empty, not `.` or `..`, and holds no `/`.
pub open spec fn piece_like(c: ComponentView) -> bool {
    match c {
        ComponentView::ParentDir => true,
        ComponentView::Normal(n) => n.len() > 0 && n != dot() && n != dot_dot() && forall|i: int|
            0 <= i < n.len() ==> n[i] != 47u8,
        _ => false,
    }
}

/// The pieces on both sides of a `/` give their components one after the
/// other.
pub proof fn lemma_piece_components_concat(x: Seq<u8>, y: Seq<u8>)
    ensures
        piece_components(x + seq![47u8] + y) == piece_components(x) + piece_components(y),
    decreases x.len(),
{
    let s = x + seq![47u8] + y;
    lemma_find(x, 47u8);
    let i = find(x, 47u8);
    assert forall|j: int| 0 <= j < i implies s[j] != 47u8 by {
        assert(s[j] == x[j]);
    }
    if i < x.len() {
        assert(s[i] == x[i]);
        lemma_find_is(s, 47u8, i);
        assert(s.take(i) =~= x.take(i));
        assert(s.skip(i + 1) =~= x.skip(i + 1) + seq![47u8] + y);
        lemma_piece_components_concat(x.skip(i + 1), y);
        assert(x.len() > 0);
        match piece_component(x.take(i)) {
            Some(c) => {
                assert(piece_components(s) == seq![c] + piece_components(s.skip(i + 1)));
                assert(piece_components(x) == seq![c] + piece_components(x.skip(i + 1)));
                assert(seq![c] + (piece_components(x.skip(i + 1)) + piece_components(y)) =~= (
                seq![c] + piece_components(x.skip(i + 1))) + piece_components(y));
            },
            None => {},
        }
    } else {
        assert(s[x.len() as int] == 47u8);
        lemma_find_is(s, 47u8, x.len() as int);
        assert(s.take(x.len() as int) =~= x);
        assert(s.skip(x.len() as int + 1) =~= y);
        if x.len() == 0 {
            assert(piece_component(x) is None);
            assert(piece_components(x) =~= Seq::<ComponentView>::empty());
            assert(piece_components(x) + piece_components(y) =~= piece_components(y));
        } else {
            assert(x.take(i) =~= x);
            match piece_component(x) {
                Some(c) => {
                    assert(piece_components(x) =~= seq![c]);
                },
                None => {
                    assert(piece_components(x) =~= Seq::<ComponentView>::empty());
                    assert(piece_components(x) + piece_components(y) =~= piece_components(y));
                },
            }
        }
    }
}

/// The components of pieces are `..` or names.
pub proof fn lemma_pieces_piece_like(s: Seq<u8>)
    ensures
        forall|k: int|
            0 <= k < piece_components(s).len() ==> piece_like(#[trigger] piece_components(s)[k]),
    decreases s.len(),
{
    if s.len() > 0 {
        lemma_find(s, 47u8);
        let i = find(s, 47u8);
        let rest = if i < s.len() {
            lemma_pieces_piece_like(s.skip(i + 1));
            piece_components(s.skip(i + 1))
        } else {
            Seq::<ComponentView>::empty()
        };
        let piece = s.take(i);
        assert forall|j: int| 0 <= j < piece.len() implies piece[j] != 47u8 by {
            assert(piece[j] == s[j]);
        }
        match piece_component(piece) {
            Some(c) => {
                assert(piece_like(c));
                assert forall|k: int|
                    0 <= k < piece_components(s).len() implies piece_like(
                    #[trigger] piece_components(s)[k],
                ) by {
                    if k > 0 {
                        assert(piece_components(s)[k] == rest[k - 1]);
                    }
                }
            },
            None => {},
        }
    }
}

/// Rendering names and `..` and splitting them again gives them back; the
/// rendering is relative and does not end in `/`.
pub proof fn lemma_render_pieces(cs: Seq<ComponentView>)
    requires
        forall|k: int| 0 <= k < cs.len() ==> piece_like(#[trigger] cs[k]),
    ensures
        piece_components(render(cs)) == cs,
        !spec_is_absolute(render(cs)),
        cs.len() > 0 ==> render(cs).len() > 0 && render(cs).last() != 47u8,
        cs.len() == 0 ==> render(cs).len() == 0,
    decreases cs.len(),
{
    if cs.len() > 0 {
        let init = cs.drop_last();
        let c = cs.last();
        assert(piece_like(cs[cs.len() - 1]));
        lemma_render_pieces(init);
        let b = component_bytes(c);
        let r0 = render(init);
        assert(b.len() > 0 && b[0] != 47u8 && b.last() != 47u8 && forall|i: int|
            0 <= i < b.len() ==> b[i] != 47u8) by {
            match c {
                ComponentView::Normal(n) => {
                    assert(b == n);
                    assert(b[0] != 47u8);
                    assert(b[b.len() - 1] != 47u8);
                },
                _ => {
                    assert(b =~= dot_dot());
                },
            }
        }
        lemma_find_is(b, 47u8, b.len() as int);
        assert(b.take(b.len() as int) =~= b);
        assert(piece_component(b) == Some(c)) by {
            match c {
                ComponentView::Normal(n) => {},
                _ => {
                    assert(b =~= dot_dot());
                },
            }
        }
        assert(piece_components(b) == seq![c]);
        if init.len() == 0 {
            assert(r0.len() == 0);
            assert(render(cs) =~= b);
            assert(cs =~= seq![c]);
        } else {
            assert(render(cs) == r0 + seq![47u8] + b);
            lemma_piece_components_concat(r0, b);
            assert(cs =~= init.push(c));
            assert(render(cs)[0] == r0[0]);
        }
    }
}

/// The path after the first `k` components of an absolute path is made of
/// pieces.
proof fn lemma_tail_piece_like(p: Seq<u8>, k: int)
    requires
        spec_is_absolute(p),
        1 <= k <= components(p).len(),
    ensures
        forall|j: int|
            0 <= j < components(p).skip(k).len() ==> piece_like(#[trigger] components(p).skip(k)[j]),
{
    lemma_pieces_piece_like(p.skip(1));
    let pc = piece_components(p.skip(1));
    assert forall|j: int| 0 <= j < components(p).skip(k).len() implies piece_like(
        #[trigger] components(p).skip(k)[j],
    ) by {
        assert(components(p).skip(k)[j] == components(p)[k + j]);
        assert(components(p)[k + j] == pc[k + j - 1]);
    }
}

/// Joining relative pieces onto an absolute path appends their components.
proof fn lemma_components_join(base: Seq<u8>, rel: Seq<u8>)
    requires
        spec_is_absolute(base),
        !spec_is_absolute(rel),
    ensures
        components(spec_join(base, rel)) == components(base) + piece_components(rel),
{
    let j = spec_join(base, rel);
    assert(j[0] == base[0]);
    if base.last() == 47u8 {
        assert(j == base + rel);
        if base.len() == 1 {
            assert(base.skip(1) =~= Seq::<u8>::empty());
            assert(j.skip(1) =~= rel);
            assert(piece_components(base.skip(1)) =~= Seq::<ComponentView>::empty());
            assert(components(base) =~= seq![ComponentView::RootDir]);
        } else {
            let m = base.drop_last().skip(1);
            assert(base.skip(1) =~= m + seq![47u8] + Seq::<u8>::empty());
            assert(j.skip(1) =~= m + seq![47u8] + rel);
            lemma_piece_components_concat(m, Seq::<u8>::empty());
            lemma_piece_components_concat(m, rel);
            assert(piece_components(Seq::<u8>::empty()) =~= Seq::<ComponentView>::empty());
            assert(piece_components(base.skip(1)) =~= piece_components(m));
        }
    } else {
        assert(j == base + seq![47u8] + rel);
        assert(j.skip(1) =~= base.skip(1) + seq![47u8] + rel);
        lemma_piece_components_concat(base.skip(1), rel);
    }
    assert(components(j) =~= components(base) + piece_components(rel));
}

/// Where a relative original path is joined to an absolute mount root, the
/// path relative to that root gives back the path it was made from.
pub proof fn lemma_join_relative(base: Seq<u8>, p: Seq<u8>)
    requires
        spec_is_absolute(base),
        spec_starts_with(p, base),
    ensures
        !spec_is_absolute(spec_relative_to(p, base)),
        same_path(spec_join(base, spec_relative_to(p, base)), p),
{
    let cb = components(base);
    let cp = components(p);
    assert(cb[0] == ComponentView::RootDir);
    assert(cp[0] == cb[0]) by {
        assert(cp.take(cb.len() as int)[0] == cp[0]);
    }
    assert(spec_is_absolute(p)) by {
        if !spec_is_absolute(p) {
            if starts_with_cur_dir(p) {
                assert(cp[0] == ComponentView::CurDir);
            } else {
                lemma_pieces_piece_like(p);
                assert(piece_like(piece_components(p)[0]));
            }
        }
    }
    let k = cb.len() as int;
    lemma_tail_piece_like(p, k);
    let tail = cp.skip(k);
    lemma_render_pieces(tail);
    let rel = render(tail);
    lemma_components_join(base, rel);
    assert(cp =~= cp.take(k) + tail);
}

} // verus!
