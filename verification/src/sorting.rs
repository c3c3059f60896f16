//! The order in which `trash list` shows trashed files: by trash can, by
//! original path or by deletion date, as a stable sort.
use crate::datetime::{lemma_before_strict_total, LocalDateTime};
use crate::path::{components, path_components, Component, ComponentView, component_views};
use crate::trash_file::TrashFile;
use vstd::multiset::Multiset;
use vstd::prelude::*;

verus! {

/// Three-way comparison of byte strings, byte by byte: -1, 0 or 1.
pub open spec fn bytes_order(a: Seq<u8>, b: Seq<u8>) -> int
    decreases a.len(),
{
    if a.len() == 0 && b.len() == 0 {
        0
    } else if a.len() == 0 {
        -1
    } else if b.len() == 0 {
        1
    } else if a[0] < b[0] {
        -1
    } else if a[0] > b[0] {
        1
    } else {
        bytes_order(a.drop_first(), b.drop_first())
    }
}

/// The rank of a kind of component: the root first, then `.`, `..`, names.
pub open spec fn component_rank(c: ComponentView) -> int {
    match c {
        ComponentView::RootDir => 1,
        ComponentView::CurDir => 2,
        ComponentView::ParentDir => 3,
        ComponentView::Normal(_) => 4,
    }
}

/// Three-way comparison of components: by kind, names by their bytes.
pub open spec fn component_order(a: ComponentView, b: ComponentView) -> int {
    if component_rank(a) < component_rank(b) {
        -1
    } else if component_rank(a) > component_rank(b) {
        1
    } else {
        match (a, b) {
            (ComponentView::Normal(x), ComponentView::Normal(y)) => bytes_order(x, y),
            _ => 0,
        }
    }
}

/// Three-way comparison of paths as `Path::order` does it: component by
/// component.
pub open spec fn components_order(a: Seq<ComponentView>, b: Seq<ComponentView>) -> int
    decreases a.len(),
{
    if a.len() == 0 && b.len() == 0 {
        0
    } else if a.len() == 0 {
        -1
    } else if b.len() == 0 {
        1
    } else if component_order(a[0], b[0]) != 0 {
        component_order(a[0], b[0])
    } else {
        components_order(a.drop_first(), b.drop_first())
    }
}

/// Three-way comparison of two paths.
pub open spec fn path_order(a: Seq<u8>, b: Seq<u8>) -> int {
    components_order(components(a), components(b))
}

proof fn lemma_bytes_order(a: Seq<u8>, b: Seq<u8>, c: Seq<u8>)
    ensures
        -1 <= bytes_order(a, b) <= 1,
        bytes_order(a, b) == -bytes_order(b, a),
        bytes_order(a, b) == 0 <==> a == b,
        bytes_order(a, b) <= 0 && bytes_order(b, c) <= 0 ==> bytes_order(a, c) <= 0,
    decreases a.len(),
{
    if a.len() > 0 && b.len() > 0 && c.len() > 0 {
        lemma_bytes_order(a.drop_first(), b.drop_first(), c.drop_first());
    } else if a.len() > 0 && b.len() > 0 {
        lemma_bytes_order(a.drop_first(), b.drop_first(), c);
    }
    if a.len() > 0 && b.len() > 0 && a[0] == b[0] && a.drop_first() == b.drop_first() {
        assert(a =~= seq![a[0]] + a.drop_first());
        assert(b =~= seq![b[0]] + b.drop_first());
    }
    if a == b && a.len() > 0 {
        assert(a.drop_first() == b.drop_first());
    }
    if a.len() > 0 && b.len() > 0 && a[0] != b[0] {
        assert(a != b);
    }
    if a.len() != b.len() {
        assert(a != b);
    }
    if a.len() == 0 && b.len() == 0 {
        assert(a =~= b);
    }
}

proof fn lemma_component_order(a: ComponentView, b: ComponentView, c: ComponentView)
    ensures
        -1 <= component_order(a, b) <= 1,
        component_order(a, b) == -component_order(b, a),
        component_order(a, b) == 0 <==> a == b,
        component_order(a, b) <= 0 && component_order(b, c) <= 0 ==> component_order(a, c) <= 0,
{
    match (a, b, c) {
        (ComponentView::Normal(x), ComponentView::Normal(y), ComponentView::Normal(z)) => {
            lemma_bytes_order(x, y, z);
        },
        (ComponentView::Normal(x), ComponentView::Normal(y), _) => {
            lemma_bytes_order(x, y, y);
        },
        _ => {},
    }
}

proof fn lemma_components_order(a: Seq<ComponentView>, b: Seq<ComponentView>, c: Seq<ComponentView>)
    ensures
        -1 <= components_order(a, b) <= 1,
        components_order(a, b) == -components_order(b, a),
        components_order(a, b) == 0 <==> a == b,
        components_order(a, b) <= 0 && components_order(b, c) <= 0 ==> components_order(a, c) <= 0,
    decreases a.len(),
{
    if a.len() > 0 && b.len() > 0 {
        lemma_component_order(a[0], b[0], if c.len() > 0 {
            c[0]
        } else {
            b[0]
        });
        if c.len() > 0 {
            lemma_component_order(b[0], c[0], a[0]);
            lemma_component_order(a[0], c[0], b[0]);
            lemma_components_order(a.drop_first(), b.drop_first(), c.drop_first());
        } else {
            lemma_components_order(a.drop_first(), b.drop_first(), b.drop_first());
        }
        if a[0] == b[0] && a.drop_first() == b.drop_first() {
            assert(a =~= seq![a[0]] + a.drop_first());
            assert(b =~= seq![b[0]] + b.drop_first());
        }
        if a == b {
            assert(a.drop_first() == b.drop_first());
        }
        if a[0] != b[0] {
            assert(a != b);
        }
    }
    if a.len() != b.len() {
        assert(a != b);
    }
    if a.len() == 0 && b.len() == 0 {
        assert(a =~= b);
    }
}

/// How `trash list` orders files.
#[derive(Debug, Clone, Copy, PartialEq, Eq, Structural)]
pub enum Sorting {
    /// By the mount root of the trash can the file lies in.
    Trash,
    /// By original path.
    OriginalPath,
    /// By deletion date.
    DeletedAt,
}

/// Three-way comparison of dates in time.
pub open spec fn date_order(a: LocalDateTime, b: LocalDateTime) -> int {
    if a.spec_before(b) {
        -1
    } else if b.spec_before(a) {
        1
    } else {
        0
    }
}

/// Deletion dates compare chronologically on the full date and time: -1
/// exactly when the first is strictly earlier (on the same day too), 1
/// exactly when it is later, 0 exactly when both are the same moment.
pub proof fn lemma_date_order_chronological(a: LocalDateTime, b: LocalDateTime)
    ensures
        date_order(a, b) == -1 <==> a.spec_before(b),
        date_order(a, b) == 1 <==> b.spec_before(a),
        date_order(a, b) == 0 <==> a.fields() == b.fields(),
{
    lemma_before_strict_total(a, b, a);
}

/// Three-way comparison of two trashed files by the chosen key.
pub open spec fn file_order(a: TrashFile, b: TrashFile, by: Sorting) -> int {
    match by {
        Sorting::Trash => path_order(
            a.spec_trash().spec_mount_root(),
            b.spec_trash().spec_mount_root(),
        ),
        Sorting::OriginalPath => path_order(a.spec_original_path(), b.spec_original_path()),
        Sorting::DeletedAt => date_order(a.spec_trashinfo().deleted_at, b.spec_trashinfo().deleted_at),
    }
}

proof fn lemma_file_order(a: TrashFile, b: TrashFile, c: TrashFile, by: Sorting)
    ensures
        file_order(a, b, by) == -file_order(b, a, by),
        file_order(a, b, by) <= 0 && file_order(b, c, by) <= 0 ==> file_order(a, c, by) <= 0,
{
    match by {
        Sorting::Trash => lemma_components_order(
            components(a.spec_trash().spec_mount_root()),
            components(b.spec_trash().spec_mount_root()),
            components(c.spec_trash().spec_mount_root()),
        ),
        Sorting::OriginalPath => lemma_components_order(
            components(a.spec_original_path()),
            components(b.spec_original_path()),
            components(c.spec_original_path()),
        ),
        Sorting::DeletedAt => {
            let (x, y, z) = (
                a.spec_trashinfo().deleted_at,
                b.spec_trashinfo().deleted_at,
                c.spec_trashinfo().deleted_at,
            );
            crate::datetime::lemma_before_strict_total(x, y, z);
            crate::datetime::lemma_before_strict_total(y, z, x);
            crate::datetime::lemma_before_strict_total(x, z, y);
            crate::datetime::lemma_before_strict_total(z, x, y);
        },
    }
}

/// Three-way comparison of byte strings.
fn bytes_compare(a: &[u8], b: &[u8]) -> (r: i8)
    ensures
        r as int == bytes_order(a@, b@),
{
    let mut i: usize = 0;
    assert(a@.skip(0) =~= a@);
    assert(b@.skip(0) =~= b@);
    while i < a.len() && i < b.len() && a[i] == b[i]
        invariant
            i <= a@.len(),
            i <= b@.len(),
            bytes_order(a@, b@) == bytes_order(a@.skip(i as int), b@.skip(i as int)),
        decreases a@.len() - i,
    {
        assert(a@.skip(i as int).drop_first() =~= a@.skip(i + 1));
        assert(b@.skip(i as int).drop_first() =~= b@.skip(i + 1));
        i = i + 1;
    }
    if i == a.len() && i == b.len() {
        0
    } else if i == a.len() {
        -1
    } else if i == b.len() {
        1
    } else if a[i] < b[i] {
        -1
    } else {
        1
    }
}

fn component_compare(a: &Component, b: &Component) -> (r: i8)
    ensures
        r as int == component_order(a@, b@),
{
    let ra: u8 = match a {
        Component::RootDir => 1,
        Component::CurDir => 2,
        Component::ParentDir => 3,
        Component::Normal(_) => 4,
    };
    let rb: u8 = match b {
        Component::RootDir => 1,
        Component::CurDir => 2,
        Component::ParentDir => 3,
        Component::Normal(_) => 4,
    };
    if ra < rb {
        -1
    } else if ra > rb {
        1
    } else {
        match (a, b) {
            (Component::Normal(x), Component::Normal(y)) => bytes_compare(x.as_slice(), y.as_slice()),
            _ => 0,
        }
    }
}

/// Three-way comparison of two paths, component by component.
pub fn path_compare(a: &[u8], b: &[u8]) -> (r: i8)
    ensures
        r as int == path_order(a@, b@),
{
    let ac = path_components(a);
    let bc = path_components(b);
    let ghost av = component_views(ac@);
    let ghost bv = component_views(bc@);
    let mut i: usize = 0;
    assert(av.skip(0) =~= av);
    assert(bv.skip(0) =~= bv);
    while i < ac.len() && i < bc.len()
        invariant
            i <= ac@.len(),
            i <= bc@.len(),
            av == component_views(ac@),
            bv == component_views(bc@),
            av == components(a@),
            bv == components(b@),
            components_order(av, bv) == components_order(av.skip(i as int), bv.skip(i as int)),
        decreases ac@.len() - i,
    {
        let c = component_compare(&ac[i], &bc[i]);
        assert(av.skip(i as int)[0] == ac@[i as int]@);
        assert(bv.skip(i as int)[0] == bc@[i as int]@);
        if c != 0 {
            assert(av.skip(i as int).len() > 0 && bv.skip(i as int).len() > 0);
            assert(components_order(av.skip(i as int), bv.skip(i as int)) == c as int);
            assert(components_order(av, bv) == c as int);
            assert(av == components(a@));
            assert(path_order(a@, b@) == c as int);
            return c;
        }
        assert(av.skip(i as int).drop_first() =~= av.skip(i + 1));
        assert(bv.skip(i as int).drop_first() =~= bv.skip(i + 1));
        i = i + 1;
    }
    if i == ac.len() && i == bc.len() {
        0
    } else if i == ac.len() {
        -1
    } else {
        1
    }
}

/// Three-way comparison of two dates.
fn date_compare(a: &LocalDateTime, b: &LocalDateTime) -> (r: i8)
    ensures
        r as int == date_order(*a, *b),
{
    if a.before(b) {
        -1
    } else if b.before(a) {
        1
    } else {
        0
    }
}

/// Three-way comparison of two trashed files by the chosen key.
pub fn file_compare(a: &TrashFile, b: &TrashFile, by: Sorting) -> (r: i8)
    ensures
        r as int == file_order(*a, *b, by),
{
    match by {
        Sorting::Trash => path_compare(a.trash().mount_root(), b.trash().mount_root()),
        Sorting::OriginalPath => {
            let pa = a.original_path();
            let pb = b.original_path();
            path_compare(pa.as_slice(), pb.as_slice())
        },
        Sorting::DeletedAt => {
            let da = a.deleted_at();
            let db = b.deleted_at();
            date_compare(&da, &db)
        },
    }
}

/// `r` is `v` sorted stably by the key: in order, a rearrangement of `v`
/// (through `perm`), where files with equal keys keep their order.
pub open spec fn stably_sorted(
    r: Seq<TrashFile>,
    v: Seq<TrashFile>,
    by: Sorting,
    perm: Seq<int>,
) -> bool {
    &&& r.len() == v.len()
    &&& perm.len() == r.len()
    &&& forall|k: int| 0 <= k < perm.len() ==> 0 <= #[trigger] perm[k] < v.len()
    &&& forall|k: int, l: int| 0 <= k < l < perm.len() ==> perm[k] != perm[l]
    &&& forall|k: int| 0 <= k < r.len() ==> r[k] == v[#[trigger] perm[k]]
    &&& forall|k: int, l: int|
        0 <= k < l < r.len() ==> file_order(#[trigger] r[k], #[trigger] r[l], by) <= 0
    &&& forall|k: int, l: int|
        0 <= k < l < r.len() && file_order(r[k], r[l], by) == 0 ==> #[trigger] perm[k]
            < #[trigger] perm[l]
}

/// In a list sorted by deletion date, no file was deleted strictly later
/// than a file after it.
pub proof fn lemma_sorted_by_date(r: Seq<TrashFile>, v: Seq<TrashFile>, perm: Seq<int>)
    requires
        stably_sorted(r, v, Sorting::DeletedAt, perm),
    ensures
        forall|k: int, l: int|
            0 <= k < l < r.len() ==> !(#[trigger] r[l]).spec_trashinfo().deleted_at.spec_before(
                (#[trigger] r[k]).spec_trashinfo().deleted_at,
            ),
{
    assert forall|k: int, l: int| 0 <= k < l < r.len() implies !(
    #[trigger] r[l]).spec_trashinfo().deleted_at.spec_before(
        (#[trigger] r[k]).spec_trashinfo().deleted_at,
    ) by {
        assert(file_order(r[k], r[l], Sorting::DeletedAt) <= 0);
        lemma_date_order_chronological(
            r[k].spec_trashinfo().deleted_at,
            r[l].spec_trashinfo().deleted_at,
        );
    }
}

/// Sorts the files stably by the key, as `sort_by` does.
pub fn sort_files(files: Vec<TrashFile>, by: Sorting) -> (r: Vec<TrashFile>)
    ensures
        exists|perm: Seq<int>| stably_sorted(r@, files@, by, perm),
{
    let ghost v = files@;
    let n = files.len();
    let mut rest = files;
    let mut out: Vec<TrashFile> = Vec::new();
    let ghost mut perm: Seq<int> = Seq::empty();
    let mut i: usize = 0;
    while rest.len() > 0
        invariant
            i + rest@.len() == v.len(),
            v.len() == n,
            rest@ == v.skip(i as int),
            out@.len() == i,
            perm.len() == i,
            forall|k: int| 0 <= k < perm.len() ==> 0 <= #[trigger] perm[k] < i,
            forall|k: int, l: int| 0 <= k < l < perm.len() ==> perm[k] != perm[l],
            forall|k: int| 0 <= k < out@.len() ==> out@[k] == v[#[trigger] perm[k]],
            forall|k: int, l: int|
                0 <= k < l < out@.len() ==> file_order(#[trigger] out@[k], #[trigger] out@[l], by) <= 0,
            forall|k: int, l: int|
                0 <= k < l < out@.len() && file_order(out@[k], out@[l], by) == 0 ==> #[trigger] perm[k]
                    < #[trigger] perm[l],
        decreases rest@.len(),
    {
        let x = rest.remove(0);
        assert(x == v[i as int]);
        assert(rest@ =~= v.skip(i + 1));
        let mut j = out.len();
        while j > 0 && file_compare(&out[j - 1], &x, by) > 0
            invariant
                j <= out@.len(),
                forall|k: int| j <= k < out@.len() ==> file_order(#[trigger] out@[k], x, by) > 0,
            decreases j,
        {
            j = j - 1;
        }
        proof {
            if j > 0 {
                assert(file_order(out@[j - 1], x, by) <= 0);
            }
        }
        let ghost old_out = out@;
        let ghost old_perm = perm;
        out.insert(j, x);
        proof {
            perm = old_perm.insert(j as int, i as int);
            assert forall|k: int| 0 <= k < out@.len() implies out@[k] == v[#[trigger] perm[k]] by {
                if k < j {
                    assert(out@[k] == old_out[k]);
                    assert(perm[k] == old_perm[k]);
                } else if k > j {
                    assert(out@[k] == old_out[k - 1]);
                    assert(perm[k] == old_perm[k - 1]);
                }
            }
            assert forall|k: int| 0 <= k < perm.len() implies 0 <= #[trigger] perm[k] < i + 1 by {
                if k < j {
                    assert(perm[k] == old_perm[k]);
                } else if k > j {
                    assert(perm[k] == old_perm[k - 1]);
                }
            }
            assert forall|k: int, l: int| 0 <= k < l < perm.len() implies perm[k] != perm[l] by {
                if k < j {
                    assert(perm[k] == old_perm[k]);
                } else if k > j {
                    assert(perm[k] == old_perm[k - 1]);
                }
                if l < j {
                    assert(perm[l] == old_perm[l]);
                } else if l > j {
                    assert(perm[l] == old_perm[l - 1]);
                }
            }
            assert forall|k: int, l: int|
                0 <= k < l < out@.len() implies file_order(#[trigger] out@[k], #[trigger] out@[l], by)
                <= 0 by {
                let a = out@[k];
                let b = out@[l];
                if k < j && l < j {
                    assert(a == old_out[k] && b == old_out[l]);
                } else if k < j && l == j {
                    assert(a == old_out[k]);
                    if k < j - 1 {
                        lemma_file_order(a, old_out[j - 1], x, by);
                    }
                } else if k < j && l > j {
                    assert(a == old_out[k] && b == old_out[l - 1]);
                } else if k == j {
                    assert(b == old_out[l - 1]);
                    lemma_file_order(b, x, x, by);
                } else {
                    assert(a == old_out[k - 1] && b == old_out[l - 1]);
                }
            }
            assert forall|k: int, l: int|
                0 <= k < l < out@.len() && file_order(out@[k], out@[l], by) == 0 implies #[trigger] perm[k]
                < #[trigger] perm[l] by {
                if k < j && l < j {
                    assert(perm[k] == old_perm[k] && perm[l] == old_perm[l]);
                    assert(out@[k] == old_out[k] && out@[l] == old_out[l]);
                } else if k < j && l == j {
                    assert(perm[k] == old_perm[k]);
                } else if k < j && l > j {
                    assert(perm[k] == old_perm[k] && perm[l] == old_perm[l - 1]);
                    assert(out@[k] == old_out[k] && out@[l] == old_out[l - 1]);
                } else if k == j {
                    assert(out@[l] == old_out[l - 1]);
                    lemma_file_order(out@[l], x, x, by);
                } else {
                    assert(perm[k] == old_perm[k - 1] && perm[l] == old_perm[l - 1]);
                    assert(out@[k] == old_out[k - 1] && out@[l] == old_out[l - 1]);
                }
            }
        }
        i = i + 1;
    }
    assert(stably_sorted(out@, v, by, perm));
    out
}

/// The files in the opposite order.
pub fn reverse_files(files: Vec<TrashFile>) -> (r: Vec<TrashFile>)
    ensures
        r@ == files@.reverse(),
{
    let ghost v = files@;
    let mut rest = files;
    let mut out: Vec<TrashFile> = Vec::new();
    while rest.len() > 0
        invariant
            rest@ == v.take(rest@.len() as int),
            rest@.len() <= v.len(),
            out@ == v.skip(rest@.len() as int).reverse(),
        decreases rest@.len(),
    {
        let ghost k = rest@.len();
        let x = rest.pop().unwrap();
        assert(rest@ =~= v.take(k - 1));
        assert(out@.push(x) =~= v.skip(k - 1).reverse()) by {
            assert(v.skip(k - 1) =~= seq![v[k - 1]] + v.skip(k as int));
        }
        out.push(x);
    }
    assert(v.skip(0) =~= v);
    out
}

} // verus!
